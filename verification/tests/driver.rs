use nvvm_codegen::{
    version_supported, Blame, CodegenErr, Driver, Event, Fatal, Library, LinkError, Linkage, MetadataNode,
    Module, NvvmError, Operand, Request, Stage, Value, ValueKind,
};

fn options() -> Vec<String> {
    vec!["-arch=compute_61".to_string(), "-opt=3".to_string()]
}

fn units() -> Vec<Module> {
    let mut a = Module::new("a");
    a.values.push(Value::definition(1, ValueKind::Function, Linkage::External, vec![2]));
    a.values.push(Value::declaration(2, ValueKind::Function));
    a.annotations.push(MetadataNode {
        operands: vec![Operand::Value(1), Operand::Text("kernel".to_string())],
    });
    let mut b = Module::new("b");
    b.values.push(Value::definition(2, ValueKind::Function, Linkage::External, vec![]));
    b.values.push(Value::definition(3, ValueKind::Function, Linkage::External, vec![]));
    vec![a, b]
}

/// Feeds the events to a new driver and returns it with its last request.
fn run(events: Vec<Event>) -> (Driver, Request) {
    let (mut driver, mut request) = Driver::new(options());
    for event in events {
        let (d, q) = driver.step(event).unwrap();
        driver = d;
        request = q;
    }
    (driver, request)
}

fn up_to_verification() -> Vec<Event> {
    vec![
        Event::Version { major: 1, minor: 6 },
        Event::Done,
        Event::Units(units()),
        Event::Done,
        Event::Found,
        Event::Done,
        Event::Done,
    ]
}

#[test]
fn a_new_driver_asks_for_the_version() {
    let (driver, request) = Driver::new(options());
    assert_eq!(driver.stage, Stage::Start);
    assert_eq!(driver.options, options());
    assert_eq!(request, Request::QueryVersion);
    assert!(!driver.is_finished());
}

#[test]
fn a_compilation_runs_through_every_stage() {
    let (mut driver, _) = Driver::new(options());
    let mut requests = Vec::new();
    let mut stages = Vec::new();
    let mut events = up_to_verification();
    events.push(Event::Done);
    events.push(Event::Artifact(vec![1, 2, 3]));
    for event in events {
        let (d, q) = driver.step(event).unwrap();
        driver = d;
        stages.push(driver.stage);
        requests.push(q);
    }
    assert_eq!(
        stages,
        vec![
            Stage::VersionChecked,
            Stage::Created,
            Stage::Linked,
            Stage::ModuleAdded,
            Stage::LibdeviceFound,
            Stage::LibdeviceAdded,
            Stage::LibrariesAdded,
            Stage::Verified,
            Stage::Compiled,
        ]
    );
    let mut merged = Module::new("merged_modules");
    merged.values.push(Value::definition(1, ValueKind::Function, Linkage::External, vec![2]));
    merged.values.push(Value::definition(2, ValueKind::Function, Linkage::Internal, vec![]));
    merged.annotations.push(MetadataNode {
        operands: vec![Operand::Value(1), Operand::Text("kernel".to_string())],
    });
    assert_eq!(
        requests,
        vec![
            Request::CreateProgram,
            Request::LoadUnits,
            Request::AddModule { name: "merged".to_string(), module: merged },
            Request::FindLibdevice,
            Request::AddLazyModule { name: "libdevice".to_string(), library: Library::Libdevice },
            Request::AddLazyModule {
                name: "libintrinsics".to_string(),
                library: Library::Libintrinsics,
            },
            Request::Verify,
            Request::Compile { options: options() },
            Request::Return(Ok(vec![1, 2, 3])),
        ]
    );
    assert!(driver.is_finished());
    assert_eq!(driver.options, options());
}

#[test]
fn versions_are_compared_major_first() {
    assert!(version_supported(1, 6));
    assert!(version_supported(1, 7));
    assert!(version_supported(2, 0));
    assert!(!version_supported(1, 5));
    assert!(!version_supported(0, 9));
    assert!(!version_supported(0, 6));
    assert!(!version_supported(-1, 20));
    assert!(!version_supported(1, -1));
}

#[test]
fn an_old_version_aborts_before_anything_is_created() {
    for (major, minor) in [(1, 5), (0, 9), (1, 0), (0, 0)] {
        let (driver, request) = run(vec![Event::Version { major, minor }]);
        assert_eq!(request, Request::Abort(Fatal::VersionTooOld));
        assert_eq!(driver.stage, Stage::Failed);
        assert!(driver.is_finished());
        assert_eq!(driver.step(Event::Done), None);
    }
}

#[test]
fn a_newer_major_version_is_accepted() {
    let (driver, request) = run(vec![Event::Version { major: 2, minor: 0 }]);
    assert_eq!(request, Request::CreateProgram);
    assert_eq!(driver.stage, Stage::VersionChecked);
}

#[test]
fn a_refused_program_goes_back_to_the_caller() {
    let (driver, request) = run(vec![
        Event::Version { major: 1, minor: 6 },
        Event::Refused(NvvmError::ProgramCreationFailure),
    ]);
    assert_eq!(
        request,
        Request::Return(Err(CodegenErr::Nvvm(NvvmError::ProgramCreationFailure)))
    );
    assert_eq!(driver.stage, Stage::Refused);
    assert!(driver.is_finished());
}

#[test]
fn a_refused_module_goes_back_to_the_caller() {
    let (driver, request) = run(vec![
        Event::Version { major: 1, minor: 6 },
        Event::Done,
        Event::Units(units()),
        Event::Refused(NvvmError::InvalidIr),
    ]);
    assert_eq!(request, Request::Return(Err(CodegenErr::Nvvm(NvvmError::InvalidIr))));
    assert_eq!(driver.stage, Stage::Refused);
}

#[test]
fn a_refused_library_goes_back_to_the_caller() {
    let mut events = up_to_verification();
    events.truncate(5);
    events.push(Event::Refused(NvvmError::InvalidInput));
    let (_, request) = run(events);
    assert_eq!(request, Request::Return(Err(CodegenErr::Nvvm(NvvmError::InvalidInput))));

    let mut events = up_to_verification();
    events.truncate(6);
    events.push(Event::Refused(NvvmError::OutOfMemory));
    let (driver, request) = run(events);
    assert_eq!(request, Request::Return(Err(CodegenErr::Nvvm(NvvmError::OutOfMemory))));
    assert_eq!(driver.stage, Stage::Refused);
}

#[test]
fn an_unreadable_unit_aborts() {
    let (driver, request) =
        run(vec![Event::Version { major: 1, minor: 6 }, Event::Done, Event::Unreadable]);
    assert_eq!(request, Request::Abort(Fatal::BitcodeParse));
    assert_eq!(driver.stage, Stage::Failed);
}

#[test]
fn a_symbol_defined_twice_aborts() {
    let mut all = units();
    let mut c = Module::new("c");
    c.values.push(Value::definition(3, ValueKind::Function, Linkage::Internal, vec![]));
    all.push(c);
    let (driver, request) =
        run(vec![Event::Version { major: 1, minor: 6 }, Event::Done, Event::Units(all)]);
    assert_eq!(request, Request::Abort(Fatal::Link(LinkError::DuplicateDefinition(3))));
    assert_eq!(driver.stage, Stage::Failed);
}

#[test]
fn a_missing_math_library_aborts() {
    let mut events = up_to_verification();
    events.truncate(4);
    events.push(Event::Missing);
    let (driver, request) = run(events);
    assert_eq!(request, Request::Abort(Fatal::LibdeviceMissing));
    assert_eq!(driver.stage, Stage::Failed);
    assert!(driver.is_finished());
}

#[test]
fn a_rejected_program_aborts_with_the_log() {
    let mut events = up_to_verification();
    events.push(Event::Refused(NvvmError::InvalidIr));
    let (driver, request) = run(events);
    assert_eq!(request, Request::FetchLog);
    assert_eq!(driver.stage, Stage::Rejected);
    let (driver, request) = driver.step(Event::Log(Some("bad call".to_string()))).unwrap();
    assert_eq!(request, Request::Abort(Fatal::Malformed { log: "bad call".to_string() }));
    assert_eq!(driver.stage, Stage::Failed);
}

#[test]
fn a_rejected_program_without_a_log_aborts_with_an_empty_one() {
    let mut events = up_to_verification();
    events.push(Event::Refused(NvvmError::InvalidIr));
    events.push(Event::Log(None));
    let (_, request) = run(events);
    assert_eq!(request, Request::Abort(Fatal::Malformed { log: String::new() }));
}

#[test]
fn an_unreadable_log_aborts() {
    let mut events = up_to_verification();
    events.push(Event::Refused(NvvmError::InvalidIr));
    events.push(Event::Refused(NvvmError::InvalidProgram));
    let (driver, request) = run(events);
    assert_eq!(request, Request::Abort(Fatal::LogUnavailable(NvvmError::InvalidProgram)));
    assert_eq!(driver.stage, Stage::Failed);
}

#[test]
fn a_failed_compilation_aborts() {
    let mut events = up_to_verification();
    events.push(Event::Done);
    events.push(Event::Refused(NvvmError::CompilationError));
    let (driver, request) = run(events);
    assert_eq!(request, Request::Abort(Fatal::CompileFailed));
    assert_eq!(driver.stage, Stage::Failed);
}

#[test]
fn an_event_that_answers_nothing_is_not_taken() {
    let (driver, _) = Driver::new(options());
    assert_eq!(driver.step(Event::Done), None);
    let (driver, _) = run(vec![Event::Version { major: 1, minor: 6 }]);
    assert_eq!(driver.step(Event::Found), None);
    let (driver, _) = run(vec![Event::Version { major: 1, minor: 6 }, Event::Done]);
    assert_eq!(driver.step(Event::Done), None);
    let (driver, _) = run(up_to_verification());
    assert_eq!(driver.step(Event::Artifact(vec![])), None);
    let mut events = up_to_verification();
    events.push(Event::Done);
    let (driver, _) = run(events);
    assert_eq!(driver.step(Event::Done), None);
}

#[test]
fn a_finished_driver_takes_no_event() {
    let mut events = up_to_verification();
    events.push(Event::Done);
    events.push(Event::Artifact(vec![7]));
    let (driver, _) = run(events);
    assert_eq!(driver.stage, Stage::Compiled);
    assert_eq!(driver.step(Event::Version { major: 1, minor: 6 }), None);
}

#[test]
fn empty_units_compile_an_empty_module() {
    let (_, request) = run(vec![
        Event::Version { major: 1, minor: 6 },
        Event::Done,
        Event::Units(vec![]),
    ]);
    assert_eq!(
        request,
        Request::AddModule { name: "merged".to_string(), module: Module::new("merged_modules") }
    );
}

#[test]
fn fatal_messages() {
    assert_eq!(
        Fatal::VersionTooOld.message(),
        "libnvvm 1.6 (CUDA 11.2) or newer is required"
    );
    assert_eq!(Fatal::BitcodeParse.message(), "Failed to parse module bitcode");
    assert_eq!(
        Fatal::Link(LinkError::DuplicateDefinition(3)).message(),
        "A symbol is defined in more than one module"
    );
    assert_eq!(
        Fatal::LibdeviceMissing.message(),
        "Could not find the libdevice library (libdevice.10.bc) in the CUDA directory"
    );
    assert_eq!(
        Fatal::Malformed { log: "line 1\nline 2".to_string() }.message(),
        "Malformed NVVM IR program rejected by libnvvm, dumping verifier log:\n\nline 1\nline 2\n\nIf you plan to submit a bug report please re-run the codegen with `RUSTFLAGS=\"--emit=llvm-ir\" and include the .ll file corresponding to the .o file mentioned in the log"
    );
    assert_eq!(
        Fatal::LogUnavailable(NvvmError::InvalidProgram).message(),
        "Malformed NVVM IR program rejected by libnvvm, and its log could not be read"
    );
    assert_eq!(
        Fatal::CompileFailed.message(),
        "libnvvm returned an error that was not previously caught by the verifier"
    );
}

#[test]
fn the_installation_is_blamed_for_what_is_missing_or_old() {
    assert_eq!(Fatal::VersionTooOld.blame(), Blame::Installation);
    assert_eq!(Fatal::LibdeviceMissing.blame(), Blame::Installation);
    assert_eq!(Fatal::BitcodeParse.blame(), Blame::Defect);
    assert_eq!(Fatal::Link(LinkError::DuplicateDefinition(1)).blame(), Blame::Defect);
    assert_eq!(Fatal::Malformed { log: String::new() }.blame(), Blame::Defect);
    assert_eq!(Fatal::LogUnavailable(NvvmError::InvalidIr).blame(), Blame::Defect);
    assert_eq!(Fatal::CompileFailed.blame(), Blame::Defect);
}
