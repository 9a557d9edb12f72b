//! Defines the type and dimensions of models.

use vstd::prelude::*;
use crate::resource::{
    model_mesh_path, model_symbol_path, Model2View, Model3Detail, Model3Format, ResourceMap,
};
use crate::validation::{
    check_missing_name, error_view, missing_name_errors, name_string, opt_name, Named,
    ValidationError, ValidationErrorType, ValidationErrorTypeView, ValidationErrorView,
    ValidationObject, ValidationResult,
};
use crate::values::Name;

verus! {

/// The type and dimensions of a model. Dimensions and offsets are held as bit patterns of IEEE
/// 754 doubles.
#[derive(Debug)]
pub struct Model {
    /// The unique name of the model.
    pub name: Option<Name>,
    /// The length of the model in meters.
    pub length: u64,
    /// The width of the model in meters.
    pub width: u64,
    /// The height of the model in meters.
    pub height: u64,
    /// Type of the 3D model.
    pub primitive_type: PrimitiveType,
    /// The name of the model file, without folder or extension.
    pub file: Option<String>,
    /// Offset in X from the 0,0 point to the desired insertion point of the top view symbol.
    pub svg_offset_x: u64,
    /// Offset in Y from the 0,0 point to the desired insertion point of the top view symbol.
    pub svg_offset_y: u64,
    /// Offset in X from the 0,0 point to the desired insertion point of the side view symbol.
    pub svg_side_offset_x: u64,
    /// Offset in Y from the 0,0 point to the desired insertion point of the side view symbol.
    pub svg_side_offset_y: u64,
    /// Offset in X from the 0,0 point to the desired insertion point of the front view symbol.
    pub svg_front_offset_x: u64,
    /// Offset in Y from the 0,0 point to the desired insertion point of the front view symbol.
    pub svg_front_offset_y: u64,
}

impl Named for Model {
    open spec fn name_view(&self) -> Option<Seq<char>> {
        opt_name(self.name)
    }

    fn name_ref(&self) -> (r: Option<&Name>) {
        self.name.as_ref()
    }
}

/// Some file of the model named `file` is among `resources`: its front view symbol, its glTF
/// mesh or its 3DS mesh, each at the default level of detail.
pub open spec fn model_file_exists(resources: ResourceMap, file: Seq<char>) -> bool {
    ||| resources.has(model_symbol_path(file, Model2View::Front))
    ||| resources.has(model_mesh_path(file, Model3Format::Gltf, Model3Detail::Default))
    ||| resources.has(model_mesh_path(file, Model3Format::Max3ds, Model3Detail::Default))
}

impl Model {
    /// The problems [validate](Self::validate) records: a missing name, then a model file none
    /// of whose forms is among the resources.
    pub open spec fn validation_errors(&self, resources: ResourceMap) -> Seq<ValidationErrorView> {
        missing_name_errors(self.name, ValidationObject::Model) + match self.file {
            Some(f) => if model_file_exists(resources, f@) {
                Seq::<ValidationErrorView>::empty()
            } else {
                seq![error_view(ValidationObject::Model, opt_name(self.name), ValidationErrorTypeView::MediaNotFound(f@))]
            },
            None => Seq::<ValidationErrorView>::empty(),
        }
    }

    /// Performs validation checks on the object.
    pub fn validate(&self, resource_map: &ResourceMap, result: &mut ValidationResult)
        ensures
            final(result)@ == old(result)@ + self.validation_errors(*resource_map),
    {
        check_missing_name(&self.name, ValidationObject::Model, result);
        if let Some(file) = &self.file {
            let model_exists = resource_map.read_model_symbol(file.as_str(), Model2View::Front).is_ok()
                || resource_map.read_model_mesh(file.as_str(), Model3Format::Gltf, Model3Detail::Default).is_ok()
                || resource_map.read_model_mesh(file.as_str(), Model3Format::Max3ds, Model3Detail::Default).is_ok();
            if !model_exists {
                result.push(ValidationError::new(
                    ValidationObject::Model,
                    name_string(&self.name),
                    ValidationErrorType::MediaNotFound(file.clone()),
                ));
            }
        }
        assert(result@ =~= old(result)@ + self.validation_errors(*resource_map));
    }
}

/// Type of the 3D model of a [Model].
#[derive(Debug, Clone, Copy, PartialEq, Eq, Hash, Structural)]
pub enum PrimitiveType {
    /// A cube.
    Cube,
    /// A cylinder.
    Cylinder,
    /// A sphere.
    Sphere,
    /// A base.
    Base,
    /// A yoke.
    Yoke,
    /// A head.
    Head,
    /// A scanner.
    Scanner,
    /// A conventional.
    Conventional,
    /// A pigtail.
    Pigtail,
    /// A base, version 1.1.
    Base1_1,
    /// A scanner, version 1.1.
    Scanner1_1,
    /// A conventional, version 1.1.
    Conventional1_1,
    /// Undefined (the default).
    Undefined,
}

impl PrimitiveType {
    /// The type of a model that names none: [PrimitiveType::Undefined].
    pub fn default() -> (r: PrimitiveType)
        ensures
            r == PrimitiveType::Undefined,
    {
        PrimitiveType::Undefined
    }
}

} // verus!
