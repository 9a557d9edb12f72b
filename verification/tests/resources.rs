use gdtf::resource::{FtThumbnailFormat, Model2View, Model3Detail, Model3Format, Resource, ResourceMap};
use gdtf::result::GdtfError;

fn map() -> ResourceMap {
    ResourceMap::new(vec![
        Resource::new("thumb.png".to_string(), 11),
        Resource::new("wheels/gobo1.png".to_string(), 12),
        Resource::new("models/svg_side/body.svg".to_string(), 13),
        Resource::new("models/3ds_high/body.3ds".to_string(), 14),
        Resource::new("thumb.png".to_string(), 99),
    ])
}

#[test]
fn resource_paths_of_each_kind() {
    let m = map();
    assert_eq!(m.read_resource("thumb.png").ok().map(|r| r.size()), Some(11));
    assert_eq!(m.read_ft_thumbnail("thumb", FtThumbnailFormat::Png).ok().map(|r| r.size()), Some(11));
    assert_eq!(m.read_wheel_media("gobo1").ok().map(|r| r.path()), Some("wheels/gobo1.png"));
    assert_eq!(m.read_model_symbol("body", Model2View::Side).ok().map(|r| r.size()), Some(13));
    assert_eq!(m.read_model_mesh("body", Model3Format::Max3ds, Model3Detail::High).ok().map(|r| r.size()), Some(14));
}

#[test]
fn missing_resources_are_not_found() {
    let m = map();
    assert!(matches!(m.read_ft_thumbnail("thumb", FtThumbnailFormat::Svg), Err(GdtfError::ResourceNotFound)));
    assert!(matches!(m.read_wheel_media("gobo2"), Err(GdtfError::ResourceNotFound)));
    assert!(matches!(m.read_model_symbol("body", Model2View::Top), Err(GdtfError::ResourceNotFound)));
    assert!(matches!(
        m.read_model_mesh("body", Model3Format::Gltf, Model3Detail::Default),
        Err(GdtfError::ResourceNotFound)
    ));
    assert!(matches!(m.read_resource(""), Err(GdtfError::ResourceNotFound)));
}

#[test]
fn names_of_formats_and_folders() {
    assert_eq!(FtThumbnailFormat::Png.extension(), "png");
    assert_eq!(FtThumbnailFormat::Svg.extension(), "svg");
    assert_eq!(Model2View::Top.folder(), "svg");
    assert_eq!(Model2View::Front.folder(), "svg_front");
    assert_eq!(Model2View::Side.folder(), "svg_side");
    assert_eq!(Model3Format::Gltf.extension(), "glb");
    assert_eq!(Model3Format::Gltf.folder(), "gltf");
    assert_eq!(Model3Format::Max3ds.extension(), "3ds");
    assert_eq!(Model3Format::Max3ds.folder(), "3ds");
    assert_eq!(Model3Detail::Low.folder_postfix(), "_low");
    assert_eq!(Model3Detail::Default.folder_postfix(), "");
    assert_eq!(Model3Detail::High.folder_postfix(), "_high");
}

#[test]
fn error_messages() {
    assert_eq!(GdtfError::Io("disk gone".to_string()).message(), "i/o error: disk gone");
    assert_eq!(GdtfError::InvalidXml("bad tag".to_string()).message(), "invalid xml: bad tag");
    assert_eq!(GdtfError::ResourceNotFound.message(), "specified resource not found in file");
}
