//! The Extensible Binary Format: typed values, the metadata that describes their shape, and
//! codecs between both and bytes.
pub mod laws;
pub mod legacy;
pub mod metadata;
pub mod primitive;
pub mod value;
pub mod wire;

pub use legacy::{
    XdlMetadata, XdlMetadataUpcast, XdlPrimitive, XdlPrimitiveId, XdlPrimitiveMetadata, XdlStruct,
    XdlStructMetadata, XdlType, XdlTypeUpcast, XdlVec, XdlVecMetadata,
};
pub use metadata::{
    DuplicateFieldError, Sealed, XbfMetadata, XbfMetadataUpcast, XbfStructMetadata,
    XbfVecMetadata, STRUCT_METADATA_DISCRIMINANT, VEC_METADATA_DISCRIMINANT,
};
pub use primitive::{NativeToXbfPrimitive, XbfPrimitive, XbfPrimitiveMetadata};
pub use value::{
    ElementsNotHomogenousError, StructError, StructFieldMismatchError, XbfStruct, XbfType,
    XbfTypeUpcast, XbfVec,
};
pub use wire::{XbfError, XbfReader};
