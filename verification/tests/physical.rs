use gdtf::physical_descriptions::{
    Ces, ColorSpace, ColorSpaceMode, Connector, Cri, CriGroup, DmxProfile, Emitter, EmitterOptic,
    Filter, Gamut, Interpolation, Measurement, PhysicalDescriptions, Point,
};
use gdtf::validation::{Check, ValidationErrorType, ValidationObject, ValidationResult};
use gdtf::values::{ColorCie, Name};

fn name(s: &str) -> Name {
    Name::new(s.to_string()).expect("valid name")
}

fn measurement(luminous_intensity: Option<f64>, transmission: Option<f64>) -> Measurement {
    Measurement {
        physical: 1f64.to_bits(),
        luminous_intensity: luminous_intensity.map(f64::to_bits),
        transmission: transmission.map(f64::to_bits),
        interpolation_to: Interpolation::Linear,
        points: vec![],
    }
}

fn point(percentage: f64) -> Point {
    Point { dmx_percentage: percentage.to_bits(), cfc0: 0, cfc1: 0, cfc2: 0, cfc3: 0 }
}

fn describe(result: &ValidationResult) -> Vec<(ValidationObject, Option<String>, String)> {
    result
        .errors
        .iter()
        .map(|e| {
            let kind = match &e.error_type {
                ValidationErrorType::MissingName => "MissingName".to_string(),
                ValidationErrorType::DuplicateName => "DuplicateName".to_string(),
                ValidationErrorType::MissingLuminousIntensity => "MissingLuminousIntensity".to_string(),
                ValidationErrorType::MissingTransmission => "MissingTransmission".to_string(),
                ValidationErrorType::EmptyPolygon => "EmptyPolygon".to_string(),
                ValidationErrorType::EmptyProfile => "EmptyProfile".to_string(),
                ValidationErrorType::DuplicatePoint(p) => format!("DuplicatePoint({})", f64::from_bits(*p)),
                ValidationErrorType::DuplicateCriSample(c) => format!("DuplicateCriSample({})", c.to_text()),
                other => format!("{:?}", other),
            };
            (e.object, e.name.clone(), kind)
        })
        .collect()
}

fn some(s: &str) -> Option<String> {
    Some(s.to_string())
}

#[test]
fn physical_descriptions_problems() {
    let mut p = PhysicalDescriptions::new();
    p.emitters.push(Emitter {
        name: Some(name("Red")),
        optic: EmitterOptic::Color { color: ColorCie::white(), dominant_wave_length: None },
        diode_part: None,
        measurements: vec![measurement(Some(1.0), None), measurement(None, None)],
    });
    p.emitters.push(Emitter {
        name: Some(name("Red")),
        optic: EmitterOptic::WaveLength { dominant_wave_length: 620f64.to_bits() },
        diode_part: None,
        measurements: vec![],
    });
    // filters are checked for duplicate names only
    p.filters.push(Filter { name: None, color: ColorCie::white(), measurements: vec![measurement(None, None)] });
    p.color_space = Some(ColorSpace { name: Some(name("Main")), mode: ColorSpaceMode::Srgb });
    p.additional_color_spaces.push(ColorSpace { name: Some(name("Main")), mode: ColorSpaceMode::Ansi });
    p.additional_color_spaces.push(ColorSpace { name: None, mode: ColorSpaceMode::ProPhoto });
    p.gamuts.push(Gamut { name: Some(name("Small")), points: vec![ColorCie::white(), ColorCie::white()] });
    p.dmx_profiles.push(DmxProfile { name: Some(name("Flat")), points: vec![] });
    p.dmx_profiles.push(DmxProfile { name: Some(name("Steps")), points: vec![point(0.0), point(0.5), point(-0.0)] });
    let ces = |n: u8| Ces::new(n).unwrap();
    p.cri_groups.push(CriGroup {
        color_temperature: 6000f64.to_bits(),
        cris: vec![
            Cri { ces: ces(1), color_rendering_index: 90 },
            Cri { ces: ces(2), color_rendering_index: 80 },
            Cri { ces: ces(1), color_rendering_index: 70 },
        ],
    });
    p.connectors.push(Connector { name: None, type_: name("DMX512"), dmx_break: Some(1), gender: 0, length: 0 });
    let mut result = ValidationResult::new();
    p.validate(&mut result);
    assert_eq!(
        describe(&result),
        vec![
            (ValidationObject::Emitter, some("Red"), "DuplicateName".to_string()),
            (ValidationObject::ColorSpace, some("Main"), "DuplicateName".to_string()),
            (ValidationObject::Emitter, some("Red"), "MissingLuminousIntensity".to_string()),
            (ValidationObject::ColorSpace, None, "MissingName".to_string()),
            (ValidationObject::Gamut, some("Small"), "EmptyPolygon".to_string()),
            (ValidationObject::DmxProfile, some("Flat"), "EmptyProfile".to_string()),
            (ValidationObject::DmxProfile, some("Steps"), "DuplicatePoint(-0)".to_string()),
            (ValidationObject::CriGroup, None, "DuplicateCriSample(CES01)".to_string()),
            (ValidationObject::Connector, None, "MissingName".to_string()),
        ]
    );
    assert!(p.emitter("Red").is_some());
    assert!(matches!(p.color_space("Main").map(|c| c.mode), Some(ColorSpaceMode::Srgb)));
    assert!(p.gamut("Small").is_some());
    assert!(p.dmx_profile("Steps").is_some());
    assert!(p.connector("DMX512").is_none());
    assert!(p.filter("Red").is_none());
}

#[test]
fn filter_measurements_need_a_transmission() {
    let f = Filter { name: Some(name("Blue")), color: ColorCie::white(), measurements: vec![measurement(None, None)] };
    let mut result = ValidationResult::new();
    f.validate(&mut result);
    assert_eq!(describe(&result), vec![(ValidationObject::Filter, some("Blue"), "MissingTransmission".to_string())]);
}
