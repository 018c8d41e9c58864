//! The compilation driver: a state machine that decides, from what the device
//! compiler and the host report, what is to be done next.
//!
//! The host performs each request and hands back what came of it as an event.
//! The driver never touches the compiler, a file or the process itself.

use crate::dce::dce_pass;
use crate::error::{CodegenErr, CodegenErrView, NvvmError};
use crate::internalize::internalize_pass;
use crate::ir::{Module, ModuleView};
use crate::merge::{distinct, merge, merge_llvm_modules, LinkError};
use vstd::prelude::*;
use vstd::string::*;

verus! {

/// How far a compilation has come.
#[derive(Clone, Copy, Debug, PartialEq, Eq, Structural)]
pub enum Stage {
    /// Nothing has happened yet; the compiler's version is awaited.
    Start,
    /// The version is new enough; the program is being created.
    VersionChecked,
    /// The program exists; the units are being loaded.
    Created,
    /// The units are linked; the merged module is being added.
    Linked,
    /// The merged module is in the program; the math library is being looked for.
    ModuleAdded,
    /// The math library was found and is being added.
    LibdeviceFound,
    /// The math library is in the program; the intrinsics library is being added.
    LibdeviceAdded,
    /// Both libraries are in the program; it is being verified.
    LibrariesAdded,
    /// The verifier rejected the program; its log is being fetched.
    Rejected,
    /// The program passed the verifier and is being compiled.
    Verified,
    /// The assembly went back to the caller.
    Compiled,
    /// The compilation was aborted.
    Failed,
    /// The compiler refused a step, and its error went back to the caller.
    Refused,
}

/// The libraries that are added to every program.
#[derive(Clone, Copy, Debug, PartialEq, Eq, Structural)]
pub enum Library {
    /// The math library that the toolchain installs.
    Libdevice,
    /// The intrinsics library that is built into the host.
    Libintrinsics,
}

/// What is at fault when a compilation is aborted.
#[derive(Clone, Copy, Debug, PartialEq, Eq, Structural)]
pub enum Blame {
    /// The toolchain on this machine is incomplete or too old. The host
    /// reports it as a fatal error of the session.
    Installation,
    /// The code generator or the compiler produced what it should not have.
    /// The host panics.
    Defect,
}

/// Why a compilation is aborted.
#[derive(Clone, Debug, PartialEq, Eq)]
pub enum Fatal {
    /// The device compiler is older than 1.6.
    VersionTooOld,
    /// A unit does not hold bitcode.
    BitcodeParse,
    /// The units cannot be linked.
    Link(LinkError),
    /// The toolchain holds no math library.
    LibdeviceMissing,
    /// The verifier rejected the program, with this log.
    Malformed { log: String },
    /// The verifier rejected the program, and its log could not be had.
    LogUnavailable(NvvmError),
    /// The compiler failed on a program that the verifier had passed.
    CompileFailed,
}

/// The mathematical content of a [`Fatal`].
pub enum FatalView {
    VersionTooOld,
    BitcodeParse,
    Link(LinkError),
    LibdeviceMissing,
    Malformed { log: Seq<char> },
    LogUnavailable(NvvmError),
    CompileFailed,
}

impl View for Fatal {
    type V = FatalView;

    open spec fn view(&self) -> FatalView {
        match self {
            Fatal::VersionTooOld => FatalView::VersionTooOld,
            Fatal::BitcodeParse => FatalView::BitcodeParse,
            Fatal::Link(e) => FatalView::Link(*e),
            Fatal::LibdeviceMissing => FatalView::LibdeviceMissing,
            Fatal::Malformed { log } => FatalView::Malformed { log: log@ },
            Fatal::LogUnavailable(e) => FatalView::LogUnavailable(*e),
            Fatal::CompileFailed => FatalView::CompileFailed,
        }
    }
}

impl FatalView {
    /// What is at fault: the installation where the compiler is too old or
    /// the math library is missing, and a defect otherwise.
    pub open spec fn blame(self) -> Blame {
        match self {
            FatalView::VersionTooOld => Blame::Installation,
            FatalView::LibdeviceMissing => Blame::Installation,
            _ => Blame::Defect,
        }
    }

    /// The text of `message`.
    pub open spec fn text(self) -> Seq<char> {
        match self {
            FatalView::VersionTooOld => "libnvvm 1.6 (CUDA 11.2) or newer is required"@,
            FatalView::BitcodeParse => "Failed to parse module bitcode"@,
            FatalView::Link(e) => "A symbol is defined in more than one module"@,
            FatalView::LibdeviceMissing =>
                "Could not find the libdevice library (libdevice.10.bc) in the CUDA directory"@,
            FatalView::Malformed { log } =>
                "Malformed NVVM IR program rejected by libnvvm, dumping verifier log:\n\n"@ + log
                    + "\n\n"@
                    + "If you plan to submit a bug report please re-run the codegen with `RUSTFLAGS=\"--emit=llvm-ir\" and include the .ll file corresponding to the .o file mentioned in the log"@,
            FatalView::LogUnavailable(e) =>
                "Malformed NVVM IR program rejected by libnvvm, and its log could not be read"@,
            FatalView::CompileFailed =>
                "libnvvm returned an error that was not previously caught by the verifier"@,
        }
    }
}

impl Fatal {
    /// What is at fault, and so how the host is to abort.
    pub fn blame(&self) -> (b: Blame)
        ensures
            b == self@.blame(),
    {
        match self {
            Fatal::VersionTooOld => Blame::Installation,
            Fatal::LibdeviceMissing => Blame::Installation,
            Fatal::BitcodeParse => Blame::Defect,
            Fatal::Link(_) => Blame::Defect,
            Fatal::Malformed { .. } => Blame::Defect,
            Fatal::LogUnavailable(_) => Blame::Defect,
            Fatal::CompileFailed => Blame::Defect,
        }
    }

    /// The message to abort with.
    pub fn message(&self) -> (s: String)
        ensures
            s@ == self@.text(),
    {
        match self {
            Fatal::VersionTooOld => "libnvvm 1.6 (CUDA 11.2) or newer is required".to_owned(),
            Fatal::BitcodeParse => "Failed to parse module bitcode".to_owned(),
            Fatal::Link(_) => "A symbol is defined in more than one module".to_owned(),
            Fatal::LibdeviceMissing =>
                "Could not find the libdevice library (libdevice.10.bc) in the CUDA directory".to_owned(),
            Fatal::Malformed { log } => {
                let head =
                    "Malformed NVVM IR program rejected by libnvvm, dumping verifier log:\n\n".to_owned();
                head.concat(log.as_str()).concat("\n\n").concat(
                    "If you plan to submit a bug report please re-run the codegen with `RUSTFLAGS=\"--emit=llvm-ir\" and include the .ll file corresponding to the .o file mentioned in the log",
                )
            },
            Fatal::LogUnavailable(_) =>
                "Malformed NVVM IR program rejected by libnvvm, and its log could not be read".to_owned(),
            Fatal::CompileFailed =>
                "libnvvm returned an error that was not previously caught by the verifier".to_owned(),
        }
    }
}

/// What came of the last request.
#[derive(Debug, PartialEq, Eq)]
pub enum Event {
    /// The version of the IR that the device compiler takes.
    Version { major: i32, minor: i32 },
    /// The compiler did what was asked.
    Done,
    /// The compiler refused what was asked.
    Refused(NvvmError),
    /// The units, parsed, in the order of the buffers.
    Units(Vec<Module>),
    /// One of the buffers does not hold bitcode.
    Unreadable,
    /// The math library was found.
    Found,
    /// The math library was not found.
    Missing,
    /// The verifier's log, if it wrote one.
    Log(Option<String>),
    /// The compiled assembly.
    Artifact(Vec<u8>),
}

/// The mathematical content of an [`Event`].
pub enum EventView {
    Version { major: i32, minor: i32 },
    Done,
    Refused(NvvmError),
    Units(Seq<ModuleView>),
    Unreadable,
    Found,
    Missing,
    Log(Option<Seq<char>>),
    Artifact(Seq<u8>),
}

impl View for Event {
    type V = EventView;

    open spec fn view(&self) -> EventView {
        match self {
            Event::Version { major, minor } => EventView::Version { major: *major, minor: *minor },
            Event::Done => EventView::Done,
            Event::Refused(e) => EventView::Refused(*e),
            Event::Units(units) => EventView::Units(units@.map_values(|u: Module| u@)),
            Event::Unreadable => EventView::Unreadable,
            Event::Found => EventView::Found,
            Event::Missing => EventView::Missing,
            Event::Log(log) => EventView::Log(
                match log {
                    Some(s) => Some(s@),
                    None => None,
                },
            ),
            Event::Artifact(bytes) => EventView::Artifact(bytes@),
        }
    }
}

/// What the host is to do next.
#[derive(Debug, PartialEq, Eq)]
pub enum Request {
    /// Ask the device compiler for its IR version.
    QueryVersion,
    /// Create the program.
    CreateProgram,
    /// Parse the unit buffers.
    LoadUnits,
    /// Add `module` to the program as its primary module, under `name`.
    AddModule { name: String, module: Module },
    /// Look for the math library in the toolchain.
    FindLibdevice,
    /// Add `library` to the program, to be loaded lazily, under `name`.
    AddLazyModule { name: String, library: Library },
    /// Verify the program.
    Verify,
    /// Fetch the verifier's log.
    FetchLog,
    /// Compile the program with these options.
    Compile { options: Vec<String> },
    /// Hand this result to the caller.
    Return(Result<Vec<u8>, CodegenErr>),
    /// Abort the compilation.
    Abort(Fatal),
}

/// The mathematical content of a [`Request`].
pub enum RequestView {
    QueryVersion,
    CreateProgram,
    LoadUnits,
    AddModule { name: Seq<char>, module: ModuleView },
    FindLibdevice,
    AddLazyModule { name: Seq<char>, library: Library },
    Verify,
    FetchLog,
    Compile { options: Seq<Seq<char>> },
    Return(Result<Seq<u8>, CodegenErrView>),
    Abort(FatalView),
}

impl View for Request {
    type V = RequestView;

    open spec fn view(&self) -> RequestView {
        match self {
            Request::QueryVersion => RequestView::QueryVersion,
            Request::CreateProgram => RequestView::CreateProgram,
            Request::LoadUnits => RequestView::LoadUnits,
            Request::AddModule { name, module } => RequestView::AddModule {
                name: name@,
                module: module@,
            },
            Request::FindLibdevice => RequestView::FindLibdevice,
            Request::AddLazyModule { name, library } => RequestView::AddLazyModule {
                name: name@,
                library: *library,
            },
            Request::Verify => RequestView::Verify,
            Request::FetchLog => RequestView::FetchLog,
            Request::Compile { options } => RequestView::Compile {
                options: options@.map_values(|s: String| s@),
            },
            Request::Return(r) => RequestView::Return(
                match r {
                    Ok(bytes) => Ok(bytes@),
                    Err(e) => Err(e@),
                },
            ),
            Request::Abort(fatal) => RequestView::Abort(fatal@),
        }
    }
}

/// The driver of one compilation.
#[derive(Debug, PartialEq, Eq)]
pub struct Driver {
    pub stage: Stage,
    /// The options for the compiler, handed on as they are.
    pub options: Vec<String>,
}

/// The mathematical content of a [`Driver`].
pub struct DriverView {
    pub stage: Stage,
    pub options: Seq<Seq<char>>,
}

impl View for Driver {
    type V = DriverView;

    open spec fn view(&self) -> DriverView {
        DriverView { stage: self.stage, options: self.options@.map_values(|s: String| s@) }
    }
}

impl DriverView {
    /// The same driver at another stage.
    pub open spec fn at(self, stage: Stage) -> DriverView {
        DriverView { stage, ..self }
    }
}

/// The version is older than 1.6.
pub open spec fn below_minimum(major: i32, minor: i32) -> bool {
    major < 1 || (major == 1 && minor < 6)
}

/// The module that goes to the compiler: the units merged, reduced and swept.
pub open spec fn linked(units: Seq<ModuleView>) -> Result<ModuleView, LinkError> {
    match merge(units) {
        Ok(m) => Ok(m.internalize().sweep()),
        Err(e) => Err(e),
    }
}

/// What the driver does on `event`: where it goes and what it asks for. `None`
/// when the event does not answer the request that the driver last made; a
/// finished driver takes no event.
pub open spec fn next(d: DriverView, event: EventView) -> Option<(DriverView, RequestView)> {
    match (d.stage, event) {
        (Stage::Start, EventView::Version { major, minor }) => if below_minimum(major, minor) {
            Some((d.at(Stage::Failed), RequestView::Abort(FatalView::VersionTooOld)))
        } else {
            Some((d.at(Stage::VersionChecked), RequestView::CreateProgram))
        },
        (Stage::VersionChecked, EventView::Done) => Some(
            (d.at(Stage::Created), RequestView::LoadUnits),
        ),
        (Stage::Created, EventView::Units(units)) => match linked(units) {
            Ok(module) => Some(
                (d.at(Stage::Linked), RequestView::AddModule { name: "merged"@, module }),
            ),
            Err(e) => Some((d.at(Stage::Failed), RequestView::Abort(FatalView::Link(e)))),
        },
        (Stage::Created, EventView::Unreadable) => Some(
            (d.at(Stage::Failed), RequestView::Abort(FatalView::BitcodeParse)),
        ),
        (Stage::Linked, EventView::Done) => Some(
            (d.at(Stage::ModuleAdded), RequestView::FindLibdevice),
        ),
        (Stage::ModuleAdded, EventView::Found) => Some(
            (
                d.at(Stage::LibdeviceFound),
                RequestView::AddLazyModule { name: "libdevice"@, library: Library::Libdevice },
            ),
        ),
        (Stage::ModuleAdded, EventView::Missing) => Some(
            (d.at(Stage::Failed), RequestView::Abort(FatalView::LibdeviceMissing)),
        ),
        (Stage::LibdeviceFound, EventView::Done) => Some(
            (
                d.at(Stage::LibdeviceAdded),
                RequestView::AddLazyModule {
                    name: "libintrinsics"@,
                    library: Library::Libintrinsics,
                },
            ),
        ),
        (Stage::LibdeviceAdded, EventView::Done) => Some(
            (d.at(Stage::LibrariesAdded), RequestView::Verify),
        ),
        (Stage::LibrariesAdded, EventView::Done) => Some(
            (d.at(Stage::Verified), RequestView::Compile { options: d.options }),
        ),
        (Stage::LibrariesAdded, EventView::Refused(_)) => Some(
            (d.at(Stage::Rejected), RequestView::FetchLog),
        ),
        (Stage::Rejected, EventView::Log(log)) => Some(
            (
                d.at(Stage::Failed),
                RequestView::Abort(
                    FatalView::Malformed {
                        log: match log {
                            Some(text) => text,
                            None => Seq::empty(),
                        },
                    },
                ),
            ),
        ),
        (Stage::Rejected, EventView::Refused(e)) => Some(
            (d.at(Stage::Failed), RequestView::Abort(FatalView::LogUnavailable(e))),
        ),
        (Stage::Verified, EventView::Artifact(bytes)) => Some(
            (d.at(Stage::Compiled), RequestView::Return(Ok(bytes))),
        ),
        (Stage::Verified, EventView::Refused(_)) => Some(
            (d.at(Stage::Failed), RequestView::Abort(FatalView::CompileFailed)),
        ),
        (Stage::VersionChecked, EventView::Refused(e)) => Some(
            (d.at(Stage::Refused), RequestView::Return(Err(CodegenErrView::Nvvm(e)))),
        ),
        (Stage::Linked, EventView::Refused(e)) => Some(
            (d.at(Stage::Refused), RequestView::Return(Err(CodegenErrView::Nvvm(e)))),
        ),
        (Stage::LibdeviceFound, EventView::Refused(e)) => Some(
            (d.at(Stage::Refused), RequestView::Return(Err(CodegenErrView::Nvvm(e)))),
        ),
        (Stage::LibdeviceAdded, EventView::Refused(e)) => Some(
            (d.at(Stage::Refused), RequestView::Return(Err(CodegenErrView::Nvvm(e)))),
        ),
        _ => None,
    }
}

/// The module that goes to the compiler holds no name twice, whatever the
/// units hold.
pub proof fn lemma_linked_distinct(units: Seq<ModuleView>, module: ModuleView)
    requires
        linked(units) == Ok::<ModuleView, LinkError>(module),
    ensures
        distinct(module.values),
{
    let merged = merge(units)->Ok_0;
    crate::merge::lemma_merge_resolves(units, merged);
    crate::internalize::lemma_internalize_distinct(merged);
    crate::dce::lemma_sweep_distinct(merged.internalize());
}

/// No reference dangles in the module that goes to the compiler, where none
/// does in the units.
pub proof fn lemma_linked_closed(units: Seq<ModuleView>, module: ModuleView)
    requires
        linked(units) == Ok::<ModuleView, LinkError>(module),
        forall|u: int| 0 <= u < units.len() ==> (#[trigger] units[u]).closed(),
    ensures
        module.closed(),
{
    let merged = merge(units)->Ok_0;
    crate::merge::lemma_merge_closed(units, merged);
    crate::internalize::lemma_internalize_closed(merged);
    crate::dce::lemma_sweep_closed(merged.internalize());
}

/// The requests that the driver makes while it takes `events` in order. The
/// run ends where the events end, or at the first event that the driver does
/// not take.
pub open spec fn requests(d: DriverView, events: Seq<EventView>) -> Seq<RequestView>
    decreases events.len(),
{
    if events.len() == 0 {
        Seq::empty()
    } else {
        match next(d, events[0]) {
            Some((after, request)) => seq![request] + requests(after, events.drop_first()),
            None => Seq::empty(),
        }
    }
}

/// How far along a stage is: each step leads to a stage that is further
/// along.
pub open spec fn progress(stage: Stage) -> nat {
    match stage {
        Stage::Start => 0,
        Stage::VersionChecked => 1,
        Stage::Created => 2,
        Stage::Linked => 3,
        Stage::ModuleAdded => 4,
        Stage::LibdeviceFound => 5,
        Stage::LibdeviceAdded => 6,
        Stage::LibrariesAdded => 7,
        Stage::Rejected => 8,
        Stage::Verified => 9,
        Stage::Compiled => 10,
        Stage::Failed => 10,
        Stage::Refused => 10,
    }
}

/// Every step takes the driver further along, so a compilation is over after
/// ten steps at most, and nothing is ever asked for twice.
pub proof fn lemma_steps_advance(d: DriverView, event: EventView)
    requires
        next(d, event) is Some,
    ensures
        progress(d.stage) < progress(next(d, event)->Some_0.0.stage),
{
}

/// A run makes ten requests at most.
pub proof fn lemma_runs_are_short(d: DriverView, events: Seq<EventView>)
    ensures
        requests(d, events).len() + progress(d.stage) <= 10,
    decreases events.len(),
{
    if events.len() > 0 {
        match next(d, events[0]) {
            Some((after, _)) => {
                lemma_steps_advance(d, events[0]);
                lemma_runs_are_short(after, events.drop_first());
            },
            None => {},
        }
    }
}

/// A driver that is finished takes no event.
pub proof fn lemma_finished_is_final(d: DriverView, event: EventView)
    requires
        d.stage == Stage::Compiled || d.stage == Stage::Failed || d.stage == Stage::Refused,
    ensures
        next(d, event) is None,
{
}

/// A step changes the stage and nothing else: the options stay.
pub proof fn lemma_options_stay(d: DriverView, event: EventView)
    requires
        next(d, event) is Some,
    ensures
        next(d, event)->Some_0.0.options == d.options,
{
}

/// On a version below 1.6 the driver aborts at once.
pub proof fn lemma_old_version_aborts(d: DriverView, major: i32, minor: i32)
    requires
        d.stage == Stage::Start,
        major < 1 || (major == 1 && minor < 6),
    ensures
        next(d, (EventView::Version { major, minor })) == Some(
            (d.at(Stage::Failed), RequestView::Abort(FatalView::VersionTooOld)),
        ),
{
}

/// On a version below 1.6 nothing else is ever asked for: whatever events
/// follow, the abort is the only request, so no program is created and no
/// module is added.
pub proof fn lemma_old_version_asks_nothing(
    d: DriverView,
    major: i32,
    minor: i32,
    events: Seq<EventView>,
)
    requires
        d.stage == Stage::Start,
        below_minimum(major, minor),
        events.len() > 0,
        events[0] == (EventView::Version { major, minor }),
    ensures
        requests(d, events) == seq![RequestView::Abort(FatalView::VersionTooOld)],
{
    let rest = events.drop_first();
    let after = d.at(Stage::Failed);
    assert(requests(after, rest) =~= Seq::<RequestView>::empty()) by {
        if rest.len() > 0 {
            lemma_finished_is_final(after, rest[0]);
        }
    }
    assert(requests(d, events) =~= seq![RequestView::Abort(FatalView::VersionTooOld)]);
}

/// An error goes back to the caller only where the compiler refused to
/// create the program or to take a module, and it is the compiler's error.
pub proof fn lemma_returned_error(d: DriverView, event: EventView, e: CodegenErrView)
    requires
        next(d, event) is Some,
        next(d, event)->Some_0.1 == RequestView::Return(Err(e)),
    ensures
        d.stage == Stage::VersionChecked || d.stage == Stage::Linked || d.stage
            == Stage::LibdeviceFound || d.stage == Stage::LibdeviceAdded,
        event is Refused,
        e == CodegenErrView::Nvvm(event->Refused_0),
        next(d, event)->Some_0.0.stage == Stage::Refused,
{
}

/// Assembly goes back to the caller only from a program that the verifier
/// has passed, and it is what the compiler produced.
pub proof fn lemma_returned_artifact(d: DriverView, event: EventView, bytes: Seq<u8>)
    requires
        next(d, event) is Some,
        next(d, event)->Some_0.1 == RequestView::Return(Ok(bytes)),
    ensures
        d.stage == Stage::Verified,
        event == EventView::Artifact(bytes),
        next(d, event)->Some_0.0.stage == Stage::Compiled,
{
}

/// A rejection by the verifier never goes back to the caller: the driver
/// fetches the log, and aborts with it.
pub proof fn lemma_rejection_aborts(d: DriverView, e: NvvmError, log: Option<Seq<char>>)
    requires
        d.stage == Stage::LibrariesAdded,
    ensures
        next(d, EventView::Refused(e)) == Some((d.at(Stage::Rejected), RequestView::FetchLog)),
        next(d.at(Stage::Rejected), EventView::Log(log)) == Some(
            (
                d.at(Stage::Failed),
                RequestView::Abort(
                    (FatalView::Malformed {
                        log: match log {
                            Some(text) => text,
                            None => Seq::empty(),
                        },
                    }),
                ),
            ),
        ),
{
}

/// Whether the device compiler's IR version is at least 1.6.
pub fn version_supported(major: i32, minor: i32) -> (b: bool)
    ensures
        b == !below_minimum(major, minor),
{
    major > 1 || (major == 1 && minor >= 6)
}

/// Merges the units, makes internal what is no entry point, and removes what
/// nothing reaches. Fails where two units define one symbol.
pub fn link_units(units: Vec<Module>) -> (r: Result<Module, LinkError>)
    ensures
        match r {
            Ok(m) => linked(units@.map_values(|u: Module| u@)) == Ok::<ModuleView, LinkError>(m@),
            Err(e) => linked(units@.map_values(|u: Module| u@)) == Err::<ModuleView, LinkError>(
                e,
            ),
        },
{
    match merge_llvm_modules(units) {
        Ok(mut module) => {
            internalize_pass(&mut module);
            dce_pass(&mut module);
            Ok(module)
        },
        Err(e) => Err(e),
    }
}

/// A copy of the options.
fn copy_options(options: &Vec<String>) -> (out: Vec<String>)
    ensures
        out@.map_values(|s: String| s@) == options@.map_values(|s: String| s@),
{
    let mut out: Vec<String> = Vec::new();
    let mut i: usize = 0;
    while i < options.len()
        invariant
            i <= options.len(),
            out@.len() == i,
            forall|j: int| 0 <= j < i ==> (#[trigger] out@[j])@ == options@[j]@,
        decreases options.len() - i,
    {
        out.push(options[i].clone());
        i += 1;
    }
    assert(out@.map_values(|s: String| s@) =~= options@.map_values(|s: String| s@));
    out
}

impl Driver {
    /// A driver for one compilation with these options, and its first
    /// request: the compiler's version.
    pub fn new(options: Vec<String>) -> (r: (Driver, Request))
        ensures
            r.0@ == (DriverView {
                stage: Stage::Start,
                options: options@.map_values(|s: String| s@),
            }),
            r.1@ == RequestView::QueryVersion,
    {
        (Driver { stage: Stage::Start, options }, Request::QueryVersion)
    }

    /// Whether the compilation is over: nothing more is asked of the host.
    pub fn is_finished(&self) -> (b: bool)
        ensures
            b == (self.stage == Stage::Compiled || self.stage == Stage::Failed || self.stage
                == Stage::Refused),
    {
        match self.stage {
            Stage::Compiled | Stage::Failed | Stage::Refused => true,
            _ => false,
        }
    }

    fn go(self, stage: Stage, request: Request) -> (r: Option<(Driver, Request)>)
        ensures
            r == Some((Driver { stage, options: self.options }, request)),
    {
        Some((Driver { stage, options: self.options }, request))
    }

    fn refuse(self, e: NvvmError) -> (r: Option<(Driver, Request)>)
        ensures
            r matches Some((d, q)) && d@ == self@.at(Stage::Refused) && q@ == RequestView::Return(
                Err(CodegenErrView::Nvvm(e)),
            ),
    {
        self.go(Stage::Refused, Request::Return(Err(CodegenErr::Nvvm(e))))
    }

    fn abort(self, fatal: Fatal) -> (r: Option<(Driver, Request)>)
        ensures
            r matches Some((d, q)) && d@ == self@.at(Stage::Failed) && q@ == RequestView::Abort(
                fatal@,
            ),
    {
        self.go(Stage::Failed, Request::Abort(fatal))
    }

    /// Takes what came of the last request, and says where the compilation
    /// stands now and what is to be done next. `None` when the event does not
    /// answer the last request.
    pub fn step(self, event: Event) -> (r: Option<(Driver, Request)>)
        ensures
            match r {
                Some((d, q)) => next(self@, event@) == Some((d@, q@)),
                None => next(self@, event@) is None,
            },
    {
        match self.stage {
            Stage::Start => match event {
                Event::Version { major, minor } => if version_supported(major, minor) {
                    self.go(Stage::VersionChecked, Request::CreateProgram)
                } else {
                    self.abort(Fatal::VersionTooOld)
                },
                _ => None,
            },
            Stage::VersionChecked => match event {
                Event::Done => self.go(Stage::Created, Request::LoadUnits),
                Event::Refused(e) => self.refuse(e),
                _ => None,
            },
            Stage::Created => match event {
                Event::Units(units) => match link_units(units) {
                    Ok(module) => self.go(
                        Stage::Linked,
                        Request::AddModule { name: "merged".to_owned(), module },
                    ),
                    Err(e) => self.abort(Fatal::Link(e)),
                },
                Event::Unreadable => self.abort(Fatal::BitcodeParse),
                _ => None,
            },
            Stage::Linked => match event {
                Event::Done => self.go(Stage::ModuleAdded, Request::FindLibdevice),
                Event::Refused(e) => self.refuse(e),
                _ => None,
            },
            Stage::ModuleAdded => match event {
                Event::Found => self.go(
                    Stage::LibdeviceFound,
                    Request::AddLazyModule {
                        name: "libdevice".to_owned(),
                        library: Library::Libdevice,
                    },
                ),
                Event::Missing => self.abort(Fatal::LibdeviceMissing),
                _ => None,
            },
            Stage::LibdeviceFound => match event {
                Event::Done => self.go(
                    Stage::LibdeviceAdded,
                    Request::AddLazyModule {
                        name: "libintrinsics".to_owned(),
                        library: Library::Libintrinsics,
                    },
                ),
                Event::Refused(e) => self.refuse(e),
                _ => None,
            },
            Stage::LibdeviceAdded => match event {
                Event::Done => self.go(Stage::LibrariesAdded, Request::Verify),
                Event::Refused(e) => self.refuse(e),
                _ => None,
            },
            Stage::LibrariesAdded => match event {
                Event::Done => {
                    let options = copy_options(&self.options);
                    self.go(Stage::Verified, Request::Compile { options })
                },
                Event::Refused(_) => self.go(Stage::Rejected, Request::FetchLog),
                _ => None,
            },
            Stage::Rejected => match event {
                Event::Log(log) => {
                    let log = match log {
                        Some(text) => text,
                        None => String::new(),
                    };
                    self.abort(Fatal::Malformed { log })
                },
                Event::Refused(e) => self.abort(Fatal::LogUnavailable(e)),
                _ => None,
            },
            Stage::Verified => match event {
                Event::Artifact(bytes) => self.go(Stage::Compiled, Request::Return(Ok(bytes))),
                Event::Refused(_) => self.abort(Fatal::CompileFailed),
                _ => None,
            },
            Stage::Compiled => None,
            Stage::Failed => None,
            Stage::Refused => None,
        }
    }
}

} // verus!
