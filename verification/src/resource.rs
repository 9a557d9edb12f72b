//! The resources packed into a GDTF file beside its description: thumbnails, wheel media and
//! model files, found by their path inside the file.

use vstd::prelude::*;
use crate::result::GdtfError;
use crate::text::{append_str, chars_of, string_from_chars};

verus! {

/// A resource stored in a GDTF file: its path inside the file and its uncompressed size.
#[derive(Debug)]
pub struct Resource {
    path: String,
    size: u64,
}

impl Resource {
    /// Describes the resource stored at `path`, `size` bytes long once uncompressed.
    pub fn new(path: String, size: u64) -> (r: Resource)
        ensures
            r.path_view() == path@,
            r.size_view() == size,
    {
        Resource { path, size }
    }

    /// The path of the resource inside the file.
    pub closed spec fn path_view(&self) -> Seq<char> {
        self.path@
    }

    /// The uncompressed size of the resource, in bytes.
    pub closed spec fn size_view(&self) -> u64 {
        self.size
    }

    /// The path of the resource inside the file.
    pub fn path(&self) -> (r: &str)
        ensures
            r@ == self.path_view(),
    {
        self.path.as_str()
    }

    /// Returns the uncompressed size of the resource, in bytes.
    pub fn size(&self) -> (r: u64)
        ensures
            r == self.size_view(),
    {
        self.size
    }
}

/// The index of the resources of a GDTF file, in the order the file lists them.
#[derive(Debug)]
pub struct ResourceMap {
    resources: Vec<Resource>,
}

/// The position of the first resource of `resources` stored at `path`.
pub open spec fn first_at_path(resources: Seq<Resource>, path: Seq<char>) -> Option<int>
    decreases resources.len(),
{
    if resources.len() == 0 {
        None
    } else if resources[0].path_view() == path {
        Some(0)
    } else {
        match first_at_path(resources.drop_first(), path) {
            Some(i) => Some(i + 1),
            None => None,
        }
    }
}

proof fn lemma_first_at_path_from(resources: Seq<Resource>, path: Seq<char>, i: int)
    requires
        0 <= i <= resources.len(),
        forall|j: int| 0 <= j < i ==> (#[trigger] resources[j]).path_view() != path,
    ensures
        first_at_path(resources, path) == (match first_at_path(
            resources.subrange(i, resources.len() as int),
            path,
        ) {
            Some(k) => Some(k + i),
            None => None,
        }),
    decreases i,
{
    if i == 0 {
        assert(resources.subrange(0, resources.len() as int) =~= resources);
    } else {
        assert forall|j: int| 0 <= j < i - 1 implies (#[trigger] resources.drop_first()[j]).path_view() != path by {
            assert(resources.drop_first()[j] == resources[j + 1]);
        }
        lemma_first_at_path_from(resources.drop_first(), path, i - 1);
        assert(resources.drop_first().subrange(i - 1, resources.len() - 1) =~= resources.subrange(
            i,
            resources.len() as int,
        ));
    }
}

/// Format of a fixture type thumbnail.
#[derive(Debug, Clone, Copy, PartialEq, Eq, Structural)]
pub enum FtThumbnailFormat {
    /// PNG image.
    Png,
    /// SVG image.
    Svg,
}

/// The file extension of a thumbnail format.
pub open spec fn thumbnail_extension(format: FtThumbnailFormat) -> Seq<char> {
    match format {
        FtThumbnailFormat::Png => "png"@,
        FtThumbnailFormat::Svg => "svg"@,
    }
}

impl FtThumbnailFormat {
    /// Returns the file extension of the format.
    pub fn extension(self) -> (r: &'static str)
        ensures
            r@ == thumbnail_extension(self),
    {
        match self {
            FtThumbnailFormat::Png => "png",
            FtThumbnailFormat::Svg => "svg",
        }
    }
}

/// The view of a two-dimensional model symbol.
#[derive(Debug, Clone, Copy, PartialEq, Eq, Structural)]
pub enum Model2View {
    /// View from the top.
    Top,
    /// View from the front.
    Front,
    /// View from the side.
    Side,
}

/// The folder holding the model symbols of a view.
pub open spec fn view_folder(view: Model2View) -> Seq<char> {
    match view {
        Model2View::Top => "svg"@,
        Model2View::Front => "svg_front"@,
        Model2View::Side => "svg_side"@,
    }
}

impl Model2View {
    /// Returns the folder holding the model symbols of this view.
    pub fn folder(self) -> (r: &'static str)
        ensures
            r@ == view_folder(self),
    {
        match self {
            Model2View::Top => "svg",
            Model2View::Front => "svg_front",
            Model2View::Side => "svg_side",
        }
    }
}

/// Format of a three-dimensional model mesh.
#[derive(Debug, Clone, Copy, PartialEq, Eq, Structural)]
pub enum Model3Format {
    /// glTF 2.0 binary file.
    Gltf,
    /// 3D Studio file.
    Max3ds,
}

/// The file extension of a mesh format.
pub open spec fn mesh_extension(format: Model3Format) -> Seq<char> {
    match format {
        Model3Format::Gltf => "glb"@,
        Model3Format::Max3ds => "3ds"@,
    }
}

/// The folder holding the meshes of a format.
pub open spec fn mesh_folder(format: Model3Format) -> Seq<char> {
    match format {
        Model3Format::Gltf => "gltf"@,
        Model3Format::Max3ds => "3ds"@,
    }
}

impl Model3Format {
    /// Returns the file extension of the format.
    pub fn extension(self) -> (r: &'static str)
        ensures
            r@ == mesh_extension(self),
    {
        match self {
            Model3Format::Gltf => "glb",
            Model3Format::Max3ds => "3ds",
        }
    }

    /// Returns the folder holding the meshes of this format.
    pub fn folder(self) -> (r: &'static str)
        ensures
            r@ == mesh_folder(self),
    {
        match self {
            Model3Format::Gltf => "gltf",
            Model3Format::Max3ds => "3ds",
        }
    }
}

/// Level of detail of a three-dimensional model mesh.
#[derive(Debug, Clone, Copy, PartialEq, Eq, Structural)]
pub enum Model3Detail {
    /// Low detail.
    Low,
    /// Default detail.
    Default,
    /// High detail.
    High,
}

/// The suffix of the folder holding the meshes of a level of detail.
pub open spec fn detail_postfix(detail: Model3Detail) -> Seq<char> {
    match detail {
        Model3Detail::Low => "_low"@,
        Model3Detail::Default => ""@,
        Model3Detail::High => "_high"@,
    }
}

impl Model3Detail {
    /// Returns the suffix of the folder holding the meshes of this level of detail.
    pub fn folder_postfix(self) -> (r: &'static str)
        ensures
            r@ == detail_postfix(self),
    {
        match self {
            Model3Detail::Low => "_low",
            Model3Detail::Default => "",
            Model3Detail::High => "_high",
        }
    }
}

/// The path of the thumbnail named `name` in format `format`: `name.extension`.
pub open spec fn thumbnail_path(name: Seq<char>, format: FtThumbnailFormat) -> Seq<char> {
    name + "."@ + thumbnail_extension(format)
}

/// The path of the wheel media file named `name`: `wheels/name.png`.
pub open spec fn wheel_media_path(name: Seq<char>) -> Seq<char> {
    "wheels/"@ + name + ".png"@
}

/// The path of the model symbol named `name` for `view`: `models/folder/name.svg`.
pub open spec fn model_symbol_path(name: Seq<char>, view: Model2View) -> Seq<char> {
    "models/"@ + view_folder(view) + "/"@ + name + ".svg"@
}

/// The path of the model mesh named `name`: `models/folder postfix/name.extension`.
pub open spec fn model_mesh_path(name: Seq<char>, format: Model3Format, detail: Model3Detail) -> Seq<char> {
    "models/"@ + mesh_folder(format) + detail_postfix(detail) + "/"@ + name + "."@ + mesh_extension(format)
}

impl View for ResourceMap {
    type V = Seq<Resource>;

    closed spec fn view(&self) -> Seq<Resource> {
        self.resources@
    }
}

impl ResourceMap {
    /// An index of the resources `resources`, in the order the file lists them.
    pub fn new(resources: Vec<Resource>) -> (r: ResourceMap)
        ensures
            r@ == resources@,
    {
        ResourceMap { resources }
    }

    /// Whether a resource is stored at `path`.
    pub open spec fn has(&self, path: Seq<char>) -> bool {
        first_at_path(self@, path) is Some
    }

    /// Looks up the resource stored at `path`.
    ///
    /// Fails with [GdtfError::ResourceNotFound] when no resource is stored there.
    pub fn read_resource(&self, path: &str) -> (r: Result<&Resource, GdtfError>)
        ensures
            match first_at_path(self@, path@) {
                Some(i) => r == Ok::<&Resource, GdtfError>(&self@[i]),
                None => r == Err::<&Resource, GdtfError>(GdtfError::ResourceNotFound),
            },
    {
        let mut i: usize = 0;
        while i < self.resources.len()
            invariant
                i <= self.resources@.len(),
                forall|j: int| 0 <= j < i ==> (#[trigger] self.resources@[j]).path_view() != path@,
            decreases self.resources@.len() - i,
        {
            let p = chars_of(self.resources[i].path());
            if crate::text::range_eq(&p, 0, p.len(), path) {
                proof {
                    assert(p@.subrange(0, p@.len() as int) =~= p@);
                    lemma_first_at_path_from(self.resources@, path@, i as int);
                    assert(self.resources@.subrange(i as int, self.resources@.len() as int)[0]
                        == self.resources@[i as int]);
                }
                return Ok(&self.resources[i]);
            }
            assert(p@.subrange(0, p@.len() as int) =~= p@);
            i = i + 1;
        }
        proof {
            lemma_first_at_path_from(self.resources@, path@, i as int);
            assert(self.resources@.subrange(i as int, self.resources@.len() as int).len() == 0);
        }
        Err(GdtfError::ResourceNotFound)
    }

    /// Looks up the fixture type thumbnail named `name` in format `format`.
    pub fn read_ft_thumbnail(&self, name: &str, format: FtThumbnailFormat) -> (r: Result<&Resource, GdtfError>)
        ensures
            match first_at_path(self@, thumbnail_path(name@, format)) {
                Some(i) => r == Ok::<&Resource, GdtfError>(&self@[i]),
                None => r == Err::<&Resource, GdtfError>(GdtfError::ResourceNotFound),
            },
    {
        let mut path = chars_of(name);
        append_str(&mut path, ".");
        append_str(&mut path, format.extension());
        self.read_resource(string_from_chars(&path).as_str())
    }

    /// Looks up the wheel media file named `name`.
    pub fn read_wheel_media(&self, name: &str) -> (r: Result<&Resource, GdtfError>)
        ensures
            match first_at_path(self@, wheel_media_path(name@)) {
                Some(i) => r == Ok::<&Resource, GdtfError>(&self@[i]),
                None => r == Err::<&Resource, GdtfError>(GdtfError::ResourceNotFound),
            },
    {
        let mut path = chars_of("wheels/");
        append_str(&mut path, name);
        append_str(&mut path, ".png");
        self.read_resource(string_from_chars(&path).as_str())
    }

    /// Looks up the two-dimensional model symbol named `name` for `view`.
    pub fn read_model_symbol(&self, name: &str, view: Model2View) -> (r: Result<&Resource, GdtfError>)
        ensures
            match first_at_path(self@, model_symbol_path(name@, view)) {
                Some(i) => r == Ok::<&Resource, GdtfError>(&self@[i]),
                None => r == Err::<&Resource, GdtfError>(GdtfError::ResourceNotFound),
            },
    {
        let mut path = chars_of("models/");
        append_str(&mut path, view.folder());
        append_str(&mut path, "/");
        append_str(&mut path, name);
        append_str(&mut path, ".svg");
        self.read_resource(string_from_chars(&path).as_str())
    }

    /// Looks up the three-dimensional model mesh named `name` in `format` and `detail`.
    pub fn read_model_mesh(&self, name: &str, format: Model3Format, detail: Model3Detail) -> (r: Result<&Resource, GdtfError>)
        ensures
            match first_at_path(self@, model_mesh_path(name@, format, detail)) {
                Some(i) => r == Ok::<&Resource, GdtfError>(&self@[i]),
                None => r == Err::<&Resource, GdtfError>(GdtfError::ResourceNotFound),
            },
    {
        let mut path = chars_of("models/");
        append_str(&mut path, format.folder());
        append_str(&mut path, detail.folder_postfix());
        append_str(&mut path, "/");
        append_str(&mut path, name);
        append_str(&mut path, ".");
        append_str(&mut path, format.extension());
        self.read_resource(string_from_chars(&path).as_str())
    }
}

} // verus!
