use nvvm_codegen::{has_bitcode_extension, find_libdevice, CodegenErr, IoError, NvvmError};

#[test]
fn errors_convert_into_codegen_errors() {
    let e: CodegenErr = NvvmError::InvalidIr.into();
    assert_eq!(e, CodegenErr::Nvvm(NvvmError::InvalidIr));
    let io = IoError { message: "no such file".to_string() };
    let e = CodegenErr::from(io.clone());
    assert_eq!(e, CodegenErr::Io(io));
}

#[test]
fn a_codegen_error_reads_as_the_error_inside() {
    for e in [
        NvvmError::OutOfMemory,
        NvvmError::ProgramCreationFailure,
        NvvmError::IrVersionMismatch,
        NvvmError::InvalidInput,
        NvvmError::InvalidProgram,
        NvvmError::InvalidIr,
        NvvmError::InvalidOption,
        NvvmError::NoModuleInProgram,
        NvvmError::CompilationError,
    ] {
        assert_eq!(CodegenErr::Nvvm(e).message(), e.message());
    }
    let io = IoError { message: "no such file".to_string() };
    assert_eq!(CodegenErr::Io(io).message(), "no such file");
}

#[test]
fn nvvm_error_messages() {
    assert_eq!(NvvmError::OutOfMemory.message(), "the compiler ran out of memory");
    assert_eq!(NvvmError::ProgramCreationFailure.message(), "the program could not be created");
    assert_eq!(NvvmError::IrVersionMismatch.message(), "the IR version is not supported");
    assert_eq!(NvvmError::InvalidInput.message(), "the input is invalid");
    assert_eq!(NvvmError::InvalidProgram.message(), "the program is invalid");
    assert_eq!(NvvmError::InvalidIr.message(), "the IR is invalid");
    assert_eq!(NvvmError::InvalidOption.message(), "a compiler option is invalid");
    assert_eq!(NvvmError::NoModuleInProgram.message(), "the program holds no module");
    assert_eq!(NvvmError::CompilationError.message(), "the compilation failed");
}

#[test]
fn bitcode_files_are_known_by_their_extension() {
    assert!(has_bitcode_extension("libdevice.10.bc"));
    assert!(has_bitcode_extension("a.bc"));
    assert!(has_bitcode_extension("..bc"));
    assert!(has_bitcode_extension("\u{e9}.bc"));
    assert!(!has_bitcode_extension(".bc"));
    assert!(!has_bitcode_extension("bc"));
    assert!(!has_bitcode_extension(""));
    assert!(!has_bitcode_extension("libdevice.bc.txt"));
    assert!(!has_bitcode_extension("libdevice.BC"));
    assert!(!has_bitcode_extension("libdevice.bcc"));
    assert!(!has_bitcode_extension("libdevicebc"));
    assert!(!has_bitcode_extension("libdevice.bc."));
}

#[test]
fn the_first_bitcode_file_is_selected() {
    let names = vec![
        "README.txt".to_string(),
        ".bc".to_string(),
        "libdevice.10.bc".to_string(),
        "libdevice.11.bc".to_string(),
    ];
    assert_eq!(find_libdevice(&names), Some(2));
    assert_eq!(find_libdevice(&names[..2].to_vec()), None);
    assert_eq!(find_libdevice(&Vec::new()), None);
    assert_eq!(find_libdevice(&vec!["x.bc".to_string()]), Some(0));
}
