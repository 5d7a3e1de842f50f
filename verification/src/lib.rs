//! Generation of TypeScript declaration files from a schema of records,
//! unions and generic containers.
//!
//! The types of a schema are registered in a [`DescriptorManager`], each
//! after the types it depends on. From the registry every record and union
//! is written to a file of its own: the imports it needs, its interface or
//! type, and a builder class where one is asked for.

pub mod api;
pub mod case;
pub mod container;
pub mod declaration;
pub mod descriptor;
pub mod emit;
pub mod file_generator;
pub mod imports;
pub mod interface;
pub mod item;
pub mod manager;
pub mod meta;
pub mod order;
pub mod scalar;
pub mod text;
pub mod ts_formatter;
pub mod type_ref;

pub use container::{Container, Field, RenameAll};
pub use declaration::{gents_header, Body, Declaration, FieldDecl, GentsWasmAttrs, VariantDecl};
pub use descriptor::{
    ApiDescriptor, BuiltinTypeDescriptor, Descriptor, EnumDescriptor, FieldDescriptor,
    GenericDescriptor, InterfaceDescriptor, MethodDescriptor, SchemaError, TagGroup,
};
pub use file_generator::FileGroup;
pub use interface::{ts_interface, ImplDecl, MethodDecl, TsInterfaceArgs};
pub use item::{Data, Item, ItemField, ItemVariant};
pub use meta::{Attribute, Lit, MetaNameValue};
pub use manager::DescriptorManager;
pub use scalar::{Scalar, TypeKey};
pub use ts_formatter::TsFormatter;
pub use type_ref::TypeRef;
