//! The build orchestrator as a state machine.
//!
//! A build alternates work on the file system, which the caller of this
//! crate performs, with decisions, which [`Build::step`] takes. The caller
//! starts with [`Build::new`], performs the action it is handed, reports the
//! outcome as a [`BuildEvent`], and goes on until the action is
//! [`Action::Finish`] or [`Action::Abort`].
//!
//! The order of a build: create the output directory; read the import map
//! from its well-known place under the output directory; create the staging
//! directory; gather route data until the end of registration; walk the
//! source tree; compile every module for both targets; write the artifacts;
//! return the slugs of the routes. Every failure ends the build. No
//! artifact is handed out unless every module compiled, and no module
//! compiles in whose text the caller's parser reported a fault.

use vstd::prelude::*;
use crate::barrier::{
    after_event,
    after_events,
    lemma_collects_in_order,
    normalized,
    opened,
    slugs_of,
    string_views,
    Barrier,
    BarrierView,
    Event,
    EventView,
    Phase,
};
use crate::cache::init;
use crate::compile::{lemma_unresolved_dependency, unresolved_at};
use crate::import_map::{entry_views, imports_of, ImportMap};
use crate::output::{
    compile_src_files,
    distinct_ids,
    file_views,
    has_id,
    lemma_broken_file_fails_pass,
    lemma_failing_module_fails_pass,
    lemma_order_of_discovery_is_immaterial,
    module_views,
    registered,
    same_files,
    src_files_compiled,
    CompileFilesError,
    CompileFilesErrorView,
    CompiledModule,
    CompiledModuleView,
    SourceFile,
    SourceFileView,
};
use crate::path::{join_path, placed};
use crate::scan::fits;
use crate::sources::SourceView;
use crate::text::to_vec;

verus! {

/// The directory under the output root that holds installed dependencies:
/// `web_modules`.
pub open spec fn web_modules_name() -> Seq<u8> {
    seq![119u8, 101u8, 98u8, 95u8, 109u8, 111u8, 100u8, 117u8, 108u8, 101u8, 115u8]
}

/// The file name of the import map: `import-map.json`.
pub open spec fn import_map_name() -> Seq<u8> {
    seq![
        105u8,
        109u8,
        112u8,
        111u8,
        114u8,
        116u8,
        45u8,
        109u8,
        97u8,
        112u8,
        46u8,
        106u8,
        115u8,
        111u8,
        110u8,
    ]
}

/// The name of the staging directory under the project: `.tmp`.
pub open spec fn tmp_name() -> Seq<u8> {
    seq![46u8, 116u8, 109u8, 112u8]
}

/// The name of the source directory under the project: `src`.
pub open spec fn src_name() -> Seq<u8> {
    seq![115u8, 114u8, 99u8]
}

/// Where the import map of a build is read from.
pub open spec fn import_map_location(output_dir: Seq<u8>) -> Seq<u8> {
    placed(placed(output_dir, web_modules_name()), import_map_name())
}

/// Where the server artifacts of a build are staged.
pub open spec fn staging_location(input_dir: Seq<u8>) -> Seq<u8> {
    placed(input_dir, tmp_name())
}

/// The directory whose module files are the sources of a build.
pub open spec fn source_location(input_dir: Seq<u8>) -> Seq<u8> {
    placed(input_dir, src_name())
}

/// The steps of a build.
#[derive(Clone, Copy, PartialEq, Eq, Debug, Structural)]
pub enum Stage {
    /// The output directory is being created.
    CreatingOutputDir,
    /// The import map is being read.
    ReadingImportMap,
    /// The staging directory is being created.
    CreatingTmpDir,
    /// Route data is being gathered.
    Draining,
    /// The source tree is being walked.
    Discovering,
    /// The artifacts are being written.
    Writing,
    /// The build has returned its slugs.
    Finished,
    /// The build was aborted.
    Failed,
}

/// Why a build was aborted.
#[derive(Debug)]
pub enum BuildError {
    /// The directory at `path` could not be created.
    CreateDir { path: Vec<u8> },
    /// The import map at `path` is missing or cannot be read.
    ReadImportMap { path: Vec<u8> },
    /// The text `content`, read from the import map at `path`, is no
    /// import-map document.
    ParseImportMap { path: Vec<u8>, content: Vec<u8> },
    /// The source at `path` cannot be read.
    ReadSource { path: Vec<u8> },
    /// The sources do not compile.
    Sources(CompileFilesError),
    /// The artifact at `path` could not be written.
    WriteArtifact { path: Vec<u8> },
    /// An event that the step under way does not end in.
    UnexpectedEvent,
}

/// What the caller reports back.
#[derive(Debug)]
pub enum BuildEvent {
    /// The directory asked for exists.
    DirectoryReady,
    /// The directory asked for could not be created.
    DirectoryFailed,
    /// The entries of the import-map document, in the order of the document.
    ImportMapRead(Vec<(Vec<u8>, Vec<u8>)>),
    /// The import-map document is missing or cannot be read.
    ImportMapUnreadable,
    /// The import-map document, whose text this is, cannot be parsed.
    ImportMapMalformed(Vec<u8>),
    /// The next event of the barrier's channel.
    Route(Event),
    /// The files found under the source directory, each with its text and
    /// with what the caller's parser said of the text.
    Discovered(Vec<SourceFile>),
    /// A file under the source directory, at this path, cannot be read.
    SourceUnreadable(Vec<u8>),
    /// Every artifact is written.
    Written,
    /// The artifact at this path could not be written.
    WriteFailed(Vec<u8>),
}

/// What the caller is to do next.
#[derive(Debug)]
pub enum Action {
    /// Create the directory at this path, with the directories above it.
    CreateDir(Vec<u8>),
    /// Read and parse the import-map document at this path.
    ReadImportMap(Vec<u8>),
    /// Wait for the next event of the barrier's channel.
    AwaitEvent,
    /// Walk the directory at this path and read the files in it.
    Discover(Vec<u8>),
    /// Write these artifacts.
    Write(Vec<CompiledModule>),
    /// Return these slugs: the build is done.
    Finish(Vec<String>),
    /// Report this error: the build is aborted.
    Abort(BuildError),
    /// Nothing: the build has ended.
    Idle,
}

/// The model of a [`BuildError`].
pub enum BuildErrorView {
    CreateDir { path: Seq<u8> },
    ReadImportMap { path: Seq<u8> },
    ParseImportMap { path: Seq<u8>, content: Seq<u8> },
    ReadSource { path: Seq<u8> },
    Sources(CompileFilesErrorView),
    WriteArtifact { path: Seq<u8> },
    UnexpectedEvent,
}

/// The model of a [`BuildEvent`].
pub enum BuildEventView {
    DirectoryReady,
    DirectoryFailed,
    ImportMapRead(Seq<(Seq<u8>, Seq<u8>)>),
    ImportMapUnreadable,
    ImportMapMalformed(Seq<u8>),
    Route(EventView),
    Discovered(Seq<SourceFileView>),
    SourceUnreadable(Seq<u8>),
    Written,
    WriteFailed(Seq<u8>),
}

/// The model of an [`Action`].
pub enum ActionView {
    CreateDir(Seq<u8>),
    ReadImportMap(Seq<u8>),
    AwaitEvent,
    Discover(Seq<u8>),
    Write(Seq<CompiledModuleView>),
    Finish(Seq<Seq<char>>),
    Abort(BuildErrorView),
    Idle,
}

/// The model of a [`Build`].
pub struct BuildView {
    pub input_dir: Seq<u8>,
    pub output_dir: Seq<u8>,
    pub stage: Stage,
    pub imports: Map<Seq<u8>, Seq<u8>>,
    pub barrier: BarrierView,
}

impl View for BuildError {
    type V = BuildErrorView;

    open spec fn view(&self) -> BuildErrorView {
        match self {
            BuildError::CreateDir { path } => BuildErrorView::CreateDir { path: path@ },
            BuildError::ReadImportMap { path } => BuildErrorView::ReadImportMap { path: path@ },
            BuildError::ParseImportMap { path, content } => BuildErrorView::ParseImportMap {
                path: path@,
                content: content@,
            },
            BuildError::ReadSource { path } => BuildErrorView::ReadSource { path: path@ },
            BuildError::Sources(e) => BuildErrorView::Sources(e@),
            BuildError::WriteArtifact { path } => BuildErrorView::WriteArtifact { path: path@ },
            BuildError::UnexpectedEvent => BuildErrorView::UnexpectedEvent,
        }
    }
}

impl View for BuildEvent {
    type V = BuildEventView;

    open spec fn view(&self) -> BuildEventView {
        match self {
            BuildEvent::DirectoryReady => BuildEventView::DirectoryReady,
            BuildEvent::DirectoryFailed => BuildEventView::DirectoryFailed,
            BuildEvent::ImportMapRead(entries) => BuildEventView::ImportMapRead(
                entry_views(entries@),
            ),
            BuildEvent::ImportMapUnreadable => BuildEventView::ImportMapUnreadable,
            BuildEvent::ImportMapMalformed(content) => BuildEventView::ImportMapMalformed(
                content@,
            ),
            BuildEvent::Route(e) => BuildEventView::Route(e@),
            BuildEvent::Discovered(files) => BuildEventView::Discovered(file_views(files@)),
            BuildEvent::SourceUnreadable(path) => BuildEventView::SourceUnreadable(path@),
            BuildEvent::Written => BuildEventView::Written,
            BuildEvent::WriteFailed(path) => BuildEventView::WriteFailed(path@),
        }
    }
}

impl View for Action {
    type V = ActionView;

    open spec fn view(&self) -> ActionView {
        match self {
            Action::CreateDir(path) => ActionView::CreateDir(path@),
            Action::ReadImportMap(path) => ActionView::ReadImportMap(path@),
            Action::AwaitEvent => ActionView::AwaitEvent,
            Action::Discover(path) => ActionView::Discover(path@),
            Action::Write(modules) => ActionView::Write(module_views(modules@)),
            Action::Finish(slugs) => ActionView::Finish(string_views(slugs@)),
            Action::Abort(e) => ActionView::Abort(e@),
            Action::Idle => ActionView::Idle,
        }
    }
}

/// A build that has just begun, and its first action.
pub open spec fn started(input_dir: Seq<u8>, output_dir: Seq<u8>) -> (BuildView, ActionView) {
    (
        BuildView {
            input_dir,
            output_dir,
            stage: Stage::CreatingOutputDir,
            imports: Map::empty(),
            barrier: opened(),
        },
        ActionView::CreateDir(output_dir),
    )
}

/// The build `b` at another stage.
pub open spec fn at_stage(b: BuildView, stage: Stage) -> BuildView {
    BuildView { stage, ..b }
}

/// The build `b` aborted with `error`.
pub open spec fn aborted(b: BuildView, error: BuildErrorView) -> (BuildView, ActionView) {
    (at_stage(b, Stage::Failed), ActionView::Abort(error))
}

/// The decision of one step: the build and the action after `event`.
pub open spec fn advance(b: BuildView, event: BuildEventView) -> (BuildView, ActionView) {
    match b.stage {
        Stage::CreatingOutputDir => match event {
            BuildEventView::DirectoryReady => (
                at_stage(b, Stage::ReadingImportMap),
                ActionView::ReadImportMap(import_map_location(b.output_dir)),
            ),
            BuildEventView::DirectoryFailed => aborted(
                b,
                BuildErrorView::CreateDir { path: b.output_dir },
            ),
            _ => aborted(b, BuildErrorView::UnexpectedEvent),
        },
        Stage::ReadingImportMap => match event {
            BuildEventView::ImportMapRead(entries) => (
                BuildView { stage: Stage::CreatingTmpDir, imports: imports_of(entries), ..b },
                ActionView::CreateDir(staging_location(b.input_dir)),
            ),
            BuildEventView::ImportMapUnreadable => aborted(
                b,
                BuildErrorView::ReadImportMap { path: import_map_location(b.output_dir) },
            ),
            BuildEventView::ImportMapMalformed(content) => aborted(
                b,
                BuildErrorView::ParseImportMap {
                    path: import_map_location(b.output_dir),
                    content,
                },
            ),
            _ => aborted(b, BuildErrorView::UnexpectedEvent),
        },
        Stage::CreatingTmpDir => match event {
            BuildEventView::DirectoryReady => (at_stage(b, Stage::Draining), ActionView::AwaitEvent),
            BuildEventView::DirectoryFailed => aborted(
                b,
                BuildErrorView::CreateDir { path: staging_location(b.input_dir) },
            ),
            _ => aborted(b, BuildErrorView::UnexpectedEvent),
        },
        Stage::Draining => match event {
            BuildEventView::Route(e) => {
                let barrier = after_event(b.barrier, e);
                if barrier.phase == Phase::Drained {
                    (
                        BuildView { stage: Stage::Discovering, barrier, ..b },
                        ActionView::Discover(source_location(b.input_dir)),
                    )
                } else {
                    (BuildView { barrier, ..b }, ActionView::AwaitEvent)
                }
            },
            _ => aborted(b, BuildErrorView::UnexpectedEvent),
        },
        Stage::Discovering => match event {
            BuildEventView::Discovered(files) => match src_files_compiled(
                b.input_dir,
                files,
                b.output_dir,
                staging_location(b.input_dir),
                Map::<Seq<u8>, SourceView>::empty(),
                b.imports,
            ) {
                Ok(modules) => (at_stage(b, Stage::Writing), ActionView::Write(modules)),
                Err(e) => aborted(b, BuildErrorView::Sources(e)),
            },
            BuildEventView::SourceUnreadable(path) => aborted(
                b,
                BuildErrorView::ReadSource { path },
            ),
            _ => aborted(b, BuildErrorView::UnexpectedEvent),
        },
        Stage::Writing => match event {
            BuildEventView::Written => (
                at_stage(b, Stage::Finished),
                ActionView::Finish(slugs_of(b.barrier.records)),
            ),
            BuildEventView::WriteFailed(path) => aborted(
                b,
                BuildErrorView::WriteArtifact { path },
            ),
            _ => aborted(b, BuildErrorView::UnexpectedEvent),
        },
        Stage::Finished => (b, ActionView::Idle),
        Stage::Failed => (b, ActionView::Idle),
    }
}

/// The build after a run of events.
pub open spec fn state_after(b: BuildView, events: Seq<BuildEventView>) -> BuildView
    decreases events.len(),
{
    if events.len() == 0 {
        b
    } else {
        advance(state_after(b, events.drop_last()), events.last()).0
    }
}

/// The actions that a run of events is answered with, one for each event.
pub open spec fn actions_after(b: BuildView, events: Seq<BuildEventView>) -> Seq<ActionView>
    decreases events.len(),
{
    if events.len() == 0 {
        Seq::empty()
    } else {
        actions_after(b, events.drop_last()).push(
            advance(state_after(b, events.drop_last()), events.last()).1,
        )
    }
}

/// The events of a channel as the caller reports them.
pub open spec fn routed(events: Seq<EventView>) -> Seq<BuildEventView> {
    Seq::new(events.len(), |i: int| BuildEventView::Route(events[i]))
}

/// A build that has ended stays ended: whatever is reported to it, it
/// keeps its state and asks for nothing.
pub proof fn lemma_ended_is_final(b: BuildView, events: Seq<BuildEventView>)
    requires
        b.stage == Stage::Failed || b.stage == Stage::Finished,
    ensures
        state_after(b, events) == b,
        actions_after(b, events).len() == events.len(),
        forall|i: int| 0 <= i < events.len() ==> actions_after(b, events)[i] == ActionView::Idle,
    decreases events.len(),
{
    if events.len() > 0 {
        lemma_ended_is_final(b, events.drop_last());
    }
}

/// A missing import map aborts the build before anything else is done:
/// when the import map cannot be read or parsed, the only actions of the
/// whole build are the creation of the output directory and the reading of
/// the import map. The staging directory is not asked for, no source is
/// read, and nothing is compiled or written, whatever is reported later.
pub proof fn lemma_missing_import_map_aborts(
    input_dir: Seq<u8>,
    output_dir: Seq<u8>,
    failure: BuildEventView,
    later: Seq<BuildEventView>,
)
    requires
        failure == BuildEventView::ImportMapUnreadable || failure is ImportMapMalformed,
    ensures
        ({
            let (b0, a0) = started(input_dir, output_dir);
            let (b1, a1) = advance(b0, BuildEventView::DirectoryReady);
            let (b2, a2) = advance(b1, failure);
            &&& a0 == ActionView::CreateDir(output_dir)
            &&& a1 == ActionView::ReadImportMap(import_map_location(output_dir))
            &&& a2 is Abort
            &&& failure == BuildEventView::ImportMapUnreadable ==> a2->Abort_0
                == BuildErrorView::ReadImportMap { path: import_map_location(output_dir) }
            &&& failure matches BuildEventView::ImportMapMalformed(content) ==> a2->Abort_0
                == BuildErrorView::ParseImportMap {
                path: import_map_location(output_dir),
                content,
            }
            &&& b2.stage == Stage::Failed
            &&& state_after(b2, later) == b2
            &&& forall|i: int|
                0 <= i < later.len() ==> actions_after(b2, later)[i] == ActionView::Idle
        }),
{
    let (b0, a0) = started(input_dir, output_dir);
    let (b1, a1) = advance(b0, BuildEventView::DirectoryReady);
    let (b2, a2) = advance(b1, failure);
    lemma_ended_is_final(b2, later);
}

proof fn lemma_draining(b: BuildView, events: Seq<EventView>, k: int)
    requires
        b.stage == Stage::Draining,
        0 <= k <= events.len(),
        forall|i: int| 0 <= i < k ==> events[i] is RegisterRouteData,
        b.barrier.phase != Phase::Drained,
    ensures
        state_after(b, routed(events.take(k))) == (BuildView {
            barrier: after_events(b.barrier, events.take(k)),
            ..b
        }),
        after_events(b.barrier, events.take(k)).phase != Phase::Drained,
    decreases k,
{
    if k > 0 {
        lemma_draining(b, events, k - 1);
        assert(events.take(k).drop_last() == events.take(k - 1));
        assert(routed(events.take(k)).drop_last() == routed(events.take(k - 1)));
        assert(routed(events.take(k)).last() == BuildEventView::Route(events[k - 1]));
    } else {
        assert(b == BuildView { barrier: b.barrier, ..b });
    }
}

/// The end of registration starts the compilation, with the route data
/// gathered in the order of its arrival: when a build that gathers route
/// data is sent `n` registrations and then `End`, it asks for the walk of
/// the source tree, and it holds the `n` records in the order in which they
/// were sent. This holds for `n == 0` too: a build without routes still
/// compiles its modules.
pub proof fn lemma_end_starts_discovery(b: BuildView, events: Seq<EventView>, n: int)
    requires
        b.stage == Stage::Draining,
        b.barrier == opened(),
        0 <= n,
        events.len() == n + 1,
        forall|i: int| 0 <= i < n ==> events[i] is RegisterRouteData,
        events[n] is End,
    ensures
        state_after(b, routed(events)).stage == Stage::Discovering,
        actions_after(b, routed(events)).last() == ActionView::Discover(
            source_location(b.input_dir),
        ),
        state_after(b, routed(events)).barrier.records.len() == n,
        forall|i: int|
            0 <= i < n ==> (#[trigger] state_after(b, routed(events)).barrier.records[i])
                == normalized(events[i]->RegisterRouteData_0),
        advance(at_stage(state_after(b, routed(events)), Stage::Writing), BuildEventView::Written).1
            == ActionView::Finish(slugs_of(after_events(opened(), events).records)),
{
    lemma_draining(b, events, n);
    lemma_collects_in_order(events, n);
    assert(events.take(n + 1) == events);
    assert(events.drop_last() == events.take(n));
    assert(routed(events).drop_last() == routed(events.take(n)));
    assert(routed(events).last() == BuildEventView::Route(events[n]));
}

/// An unresolved dependency aborts the build with nothing written: when
/// the walk finds, among module files with distinct identifiers, one that
/// has no fault and imports a bare specifier that the import map lacks, the
/// build is aborted for its sources, no artifact is handed out for writing,
/// and nothing is asked for afterwards.
pub proof fn lemma_unresolved_dependency_aborts_build(
    b: BuildView,
    files: Seq<SourceFileView>,
    i: int,
    id: Seq<u8>,
    k: int,
    later: Seq<BuildEventView>,
)
    requires
        b.stage == Stage::Discovering,
        distinct_ids(b.input_dir, files),
        0 <= i < files.len(),
        has_id(b.input_dir, files[i], id),
        files[i].parsed matches Ok(spans) && fits(files[i].content, spans) && 0 <= k
            < spans.len() && unresolved_at(files[i].content, spans, b.imports, k),
    ensures
        ({
            let (next, action) = advance(b, BuildEventView::Discovered(files));
            &&& action is Abort
            &&& action->Abort_0 is Sources
            &&& next.stage == Stage::Failed
            &&& forall|j: int|
                0 <= j < later.len() ==> actions_after(next, later)[j] == ActionView::Idle
        }),
{
    let sources = registered(b.input_dir, files, Map::<Seq<u8>, SourceView>::empty());
    lemma_unresolved_dependency(
        id,
        files[i].content,
        files[i].parsed->Ok_0,
        sources.dom(),
        b.imports,
        k,
    );
    lemma_failing_module_fails_pass(
        b.input_dir,
        files,
        b.output_dir,
        staging_location(b.input_dir),
        b.imports,
        i,
        id,
    );
    lemma_ended_is_final(advance(b, BuildEventView::Discovered(files)).0, later);
}

/// A broken module aborts the build with nothing written: when the walk
/// finds, among module files with distinct identifiers, one in whose text
/// the parser reported a fault, the build is aborted for its sources, no
/// artifact is handed out for writing, and nothing is asked for
/// afterwards, however well the other modules compile.
pub proof fn lemma_broken_module_aborts_build(
    b: BuildView,
    files: Seq<SourceFileView>,
    i: int,
    id: Seq<u8>,
    later: Seq<BuildEventView>,
)
    requires
        b.stage == Stage::Discovering,
        distinct_ids(b.input_dir, files),
        0 <= i < files.len(),
        has_id(b.input_dir, files[i], id),
        files[i].parsed is Err,
    ensures
        ({
            let (next, action) = advance(b, BuildEventView::Discovered(files));
            &&& action is Abort
            &&& action->Abort_0 is Sources
            &&& next.stage == Stage::Failed
            &&& forall|j: int|
                0 <= j < later.len() ==> actions_after(next, later)[j] == ActionView::Idle
        }),
{
    lemma_broken_file_fails_pass(
        b.input_dir,
        files,
        b.output_dir,
        staging_location(b.input_dir),
        b.imports,
        i,
        id,
    );
    lemma_ended_is_final(advance(b, BuildEventView::Discovered(files)).0, later);
}

/// Idempotence: what a build writes is determined by the project's files,
/// the two directories and the import map. Two builds that agree on these
/// either both abort or both hand out artifacts, and then the same
/// artifacts for the same sources, whatever route data each has gathered
/// and in whatever order each walk found the files.
pub proof fn lemma_rebuild_writes_the_same(
    b1: BuildView,
    b2: BuildView,
    files1: Seq<SourceFileView>,
    files2: Seq<SourceFileView>,
)
    requires
        b1.stage == Stage::Discovering,
        b2.stage == Stage::Discovering,
        b1.input_dir == b2.input_dir,
        b1.output_dir == b2.output_dir,
        b1.imports == b2.imports,
        same_files(files1, files2),
        distinct_ids(b1.input_dir, files1),
        distinct_ids(b2.input_dir, files2),
    ensures
        ({
            let a1 = advance(b1, BuildEventView::Discovered(files1)).1;
            let a2 = advance(b2, BuildEventView::Discovered(files2)).1;
            &&& a1 is Write || a1 is Abort
            &&& a1 is Write <==> a2 is Write
            &&& a1 is Write ==> a1->Write_0.len() == a2->Write_0.len()
            &&& a1 is Write ==> forall|m: CompiledModuleView|
                a1->Write_0.contains(m) <==> a2->Write_0.contains(m)
            &&& files1 == files2 ==> a1 == a2
        }),
{
    lemma_order_of_discovery_is_immaterial(
        b1.input_dir,
        files1,
        files2,
        b1.output_dir,
        staging_location(b1.input_dir),
        b1.imports,
    );
}

/// A build in progress.
pub struct Build {
    input_dir: Vec<u8>,
    output_dir: Vec<u8>,
    stage: Stage,
    import_map: ImportMap,
    barrier: Barrier,
}

impl View for Build {
    type V = BuildView;

    closed spec fn view(&self) -> BuildView {
        BuildView {
            input_dir: self.input_dir@,
            output_dir: self.output_dir@,
            stage: self.stage,
            imports: self.import_map@,
            barrier: self.barrier@,
        }
    }
}

/// Where the import map of a build with this output directory is read
/// from: `web_modules/import-map.json` under the output directory.
pub fn import_map_path(output_dir: &[u8]) -> (r: Vec<u8>)
    ensures
        r@ == import_map_location(output_dir@),
{
    let web_modules: [u8; 11] = [
        119u8,
        101u8,
        98u8,
        95u8,
        109u8,
        111u8,
        100u8,
        117u8,
        108u8,
        101u8,
        115u8,
    ];
    let import_map: [u8; 15] = [
        105u8,
        109u8,
        112u8,
        111u8,
        114u8,
        116u8,
        45u8,
        109u8,
        97u8,
        112u8,
        46u8,
        106u8,
        115u8,
        111u8,
        110u8,
    ];
    assert(web_modules@ == web_modules_name());
    assert(import_map@ == import_map_name());
    let dir = join_path(output_dir, web_modules.as_slice());
    join_path(dir.as_slice(), import_map.as_slice())
}

/// Where the server artifacts of the project at `input_dir` are staged:
/// `.tmp` under the project.
pub fn staging_dir(input_dir: &[u8]) -> (r: Vec<u8>)
    ensures
        r@ == staging_location(input_dir@),
{
    let name: [u8; 4] = [46u8, 116u8, 109u8, 112u8];
    assert(name@ == tmp_name());
    join_path(input_dir, name.as_slice())
}

/// The directory whose module files are the sources of the project at
/// `input_dir`: `src` under the project.
pub fn source_dir(input_dir: &[u8]) -> (r: Vec<u8>)
    ensures
        r@ == source_location(input_dir@),
{
    let name: [u8; 3] = [115u8, 114u8, 99u8];
    assert(name@ == src_name());
    join_path(input_dir, name.as_slice())
}

impl Build {
    /// The invariant of a build.
    pub closed spec fn wf(&self) -> bool {
        self.import_map.wf()
    }

    /// Begins the build of the project at `input_dir` into `output_dir`.
    /// Returns the build and its first action.
    pub fn new(input_dir: Vec<u8>, output_dir: Vec<u8>) -> (r: (Build, Action))
        ensures
            r.0.wf(),
            (r.0@, r.1@) == started(input_dir@, output_dir@),
    {
        let first = Action::CreateDir(to_vec(output_dir.as_slice()));
        let build = Build {
            input_dir,
            output_dir,
            stage: Stage::CreatingOutputDir,
            import_map: ImportMap::new(),
            barrier: Barrier::new(),
        };
        (build, first)
    }

    /// The step that the build is at.
    pub fn stage(&self) -> (r: Stage)
        ensures
            r == self@.stage,
    {
        self.stage
    }

    fn abort(&mut self, error: BuildError) -> (action: Action)
        requires
            old(self).wf(),
        ensures
            final(self).wf(),
            (final(self)@, action@) == aborted(old(self)@, error@),
    {
        self.stage = Stage::Failed;
        Action::Abort(error)
    }

    /// Takes in what the caller reports and decides what comes next.
    pub fn step(&mut self, event: BuildEvent) -> (action: Action)
        requires
            old(self).wf(),
        ensures
            final(self).wf(),
            (final(self)@, action@) == advance(old(self)@, event@),
    {
        match self.stage {
            Stage::CreatingOutputDir => match event {
                BuildEvent::DirectoryReady => {
                    self.stage = Stage::ReadingImportMap;
                    Action::ReadImportMap(import_map_path(self.output_dir.as_slice()))
                },
                BuildEvent::DirectoryFailed => {
                    let path = to_vec(self.output_dir.as_slice());
                    self.abort(BuildError::CreateDir { path })
                },
                _ => self.abort(BuildError::UnexpectedEvent),
            },
            Stage::ReadingImportMap => match event {
                BuildEvent::ImportMapRead(entries) => {
                    self.import_map = ImportMap::from_entries(&entries);
                    self.stage = Stage::CreatingTmpDir;
                    Action::CreateDir(staging_dir(self.input_dir.as_slice()))
                },
                BuildEvent::ImportMapUnreadable => {
                    let path = import_map_path(self.output_dir.as_slice());
                    self.abort(BuildError::ReadImportMap { path })
                },
                BuildEvent::ImportMapMalformed(content) => {
                    let path = import_map_path(self.output_dir.as_slice());
                    self.abort(BuildError::ParseImportMap { path, content })
                },
                _ => self.abort(BuildError::UnexpectedEvent),
            },
            Stage::CreatingTmpDir => match event {
                BuildEvent::DirectoryReady => {
                    self.stage = Stage::Draining;
                    Action::AwaitEvent
                },
                BuildEvent::DirectoryFailed => {
                    let path = staging_dir(self.input_dir.as_slice());
                    self.abort(BuildError::CreateDir { path })
                },
                _ => self.abort(BuildError::UnexpectedEvent),
            },
            Stage::Draining => match event {
                BuildEvent::Route(e) => {
                    let more = self.barrier.on_event(e);
                    if more {
                        Action::AwaitEvent
                    } else {
                        self.stage = Stage::Discovering;
                        Action::Discover(source_dir(self.input_dir.as_slice()))
                    }
                },
                _ => self.abort(BuildError::UnexpectedEvent),
            },
            Stage::Discovering => match event {
                BuildEvent::Discovered(files) => {
                    let mut cache = init();
                    let tmp_dir = staging_dir(self.input_dir.as_slice());
                    match compile_src_files(
                        self.input_dir.as_slice(),
                        &files,
                        self.output_dir.as_slice(),
                        &self.import_map,
                        &mut cache,
                        tmp_dir.as_slice(),
                    ) {
                        Ok(modules) => {
                            self.stage = Stage::Writing;
                            Action::Write(modules)
                        },
                        Err(e) => self.abort(BuildError::Sources(e)),
                    }
                },
                BuildEvent::SourceUnreadable(path) => self.abort(BuildError::ReadSource { path }),
                _ => self.abort(BuildError::UnexpectedEvent),
            },
            Stage::Writing => match event {
                BuildEvent::Written => {
                    self.stage = Stage::Finished;
                    Action::Finish(self.barrier.slugs())
                },
                BuildEvent::WriteFailed(path) => self.abort(BuildError::WriteArtifact { path }),
                _ => self.abort(BuildError::UnexpectedEvent),
            },
            Stage::Finished => Action::Idle,
            Stage::Failed => Action::Idle,
        }
    }
}

/// What the caller of a build is handed in the end: the slugs of a build
/// that finished, and nothing for a build that was aborted.
pub fn slugs_or_empty(outcome: Result<Vec<String>, BuildError>) -> (r: Vec<String>)
    ensures
        string_views(r@) == match outcome {
            Ok(slugs) => string_views(slugs@),
            Err(_) => Seq::<Seq<char>>::empty(),
        },
{
    match outcome {
        Ok(slugs) => slugs,
        Err(_) => {
            let r: Vec<String> = Vec::new();
            assert(string_views(r@) == Seq::<Seq<char>>::empty());
            r
        },
    }
}

} // verus!
