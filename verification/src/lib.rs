//! Linking and lowering of device IR: per-unit modules are merged into one
//! program, everything that is not an entry point is made internal, dead
//! symbols are swept, and a driver walks the device compiler through the
//! steps that turn the result into assembly.

pub mod dce;
pub mod driver;
pub mod error;
pub mod internalize;
pub mod ir;
pub mod libdevice;
pub mod merge;

pub use dce::{dce_pass, live_values};
pub use driver::{
    link_units, version_supported, Blame, Driver, Event, Fatal, Library, Request, Stage,
};
pub use error::{CodegenErr, IoError, NvvmError};
pub use internalize::internalize_pass;
pub use ir::{
    ANNOTATIONS, RETAINED, FunctionIter, GlobalIter, Linkage, MetadataNode, Module, Operand, Value, ValueKind, Visibility,
};
pub use libdevice::{has_bitcode_extension, find_libdevice};
pub use merge::{merge_llvm_modules, LinkError};
