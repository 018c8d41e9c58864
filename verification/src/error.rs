//! The errors that reach the caller.

use vstd::prelude::*;

verus! {

/// A failure that the device compiler reports.
#[derive(Clone, Copy, Debug, PartialEq, Eq, Structural)]
pub enum NvvmError {
    OutOfMemory,
    ProgramCreationFailure,
    IrVersionMismatch,
    InvalidInput,
    InvalidProgram,
    InvalidIr,
    InvalidOption,
    NoModuleInProgram,
    CompilationError,
}

impl NvvmError {
    /// The text of `message`.
    pub open spec fn text(self) -> Seq<char> {
        match self {
            NvvmError::OutOfMemory => "the compiler ran out of memory"@,
            NvvmError::ProgramCreationFailure => "the program could not be created"@,
            NvvmError::IrVersionMismatch => "the IR version is not supported"@,
            NvvmError::InvalidInput => "the input is invalid"@,
            NvvmError::InvalidProgram => "the program is invalid"@,
            NvvmError::InvalidIr => "the IR is invalid"@,
            NvvmError::InvalidOption => "a compiler option is invalid"@,
            NvvmError::NoModuleInProgram => "the program holds no module"@,
            NvvmError::CompilationError => "the compilation failed"@,
        }
    }

    /// A description of the failure.
    pub fn message(&self) -> (s: String)
        ensures
            s@ == self.text(),
    {
        match self {
            NvvmError::OutOfMemory => "the compiler ran out of memory".to_owned(),
            NvvmError::ProgramCreationFailure => "the program could not be created".to_owned(),
            NvvmError::IrVersionMismatch => "the IR version is not supported".to_owned(),
            NvvmError::InvalidInput => "the input is invalid".to_owned(),
            NvvmError::InvalidProgram => "the program is invalid".to_owned(),
            NvvmError::InvalidIr => "the IR is invalid".to_owned(),
            NvvmError::InvalidOption => "a compiler option is invalid".to_owned(),
            NvvmError::NoModuleInProgram => "the program holds no module".to_owned(),
            NvvmError::CompilationError => "the compilation failed".to_owned(),
        }
    }
}

/// A failure to reach a file or another resource.
#[derive(Clone, Debug, PartialEq, Eq)]
pub struct IoError {
    pub message: String,
}

/// What `codegen` can hand back to its caller in place of the assembly.
#[derive(Clone, Debug, PartialEq, Eq)]
pub enum CodegenErr {
    /// The device compiler refused a program or a module.
    Nvvm(NvvmError),
    /// A resource could not be reached.
    Io(IoError),
}

/// The mathematical content of a [`CodegenErr`].
pub enum CodegenErrView {
    Nvvm(NvvmError),
    Io(Seq<char>),
}

impl View for CodegenErr {
    type V = CodegenErrView;

    open spec fn view(&self) -> CodegenErrView {
        match self {
            CodegenErr::Nvvm(e) => CodegenErrView::Nvvm(*e),
            CodegenErr::Io(e) => CodegenErrView::Io(e.message@),
        }
    }
}

impl CodegenErrView {
    /// The text of `message`: that of the error inside.
    pub open spec fn text(self) -> Seq<char> {
        match self {
            CodegenErrView::Nvvm(e) => e.text(),
            CodegenErrView::Io(message) => message,
        }
    }
}

impl CodegenErr {
    /// A description of the failure: that of the error inside.
    pub fn message(&self) -> (s: String)
        ensures
            s@ == self@.text(),
    {
        match self {
            CodegenErr::Nvvm(e) => e.message(),
            CodegenErr::Io(e) => e.message.clone(),
        }
    }
}

impl From<NvvmError> for CodegenErr {
    fn from(v: NvvmError) -> (r: Self) {
        CodegenErr::Nvvm(v)
    }
}

impl vstd::std_specs::convert::FromSpecImpl<NvvmError> for CodegenErr {
    open spec fn obeys_from_spec() -> bool {
        true
    }

    open spec fn from_spec(v: NvvmError) -> Self {
        CodegenErr::Nvvm(v)
    }
}

impl From<IoError> for CodegenErr {
    fn from(v: IoError) -> (r: Self) {
        CodegenErr::Io(v)
    }
}

impl vstd::std_specs::convert::FromSpecImpl<IoError> for CodegenErr {
    open spec fn obeys_from_spec() -> bool {
        true
    }

    open spec fn from_spec(v: IoError) -> Self {
        CodegenErr::Io(v)
    }
}

} // verus!
