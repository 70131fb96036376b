//! Compiling the sources of a project into the artifacts of both targets.

use vstd::prelude::*;
use crate::bytemap::ByteMap;
use crate::cache::{file_record, Cache};
use crate::compile::{
    browser_js,
    lemma_relative_link_reaches_artifact,
    link_target,
    replacement,
    server_js,
    CompileError,
    CompileErrorView,
    TargetView,
};
use crate::import_map::ImportMap;
use crate::path::{
    below,
    is_module_file,
    join_path,
    module_extension,
    placed,
    relative,
    resolved,
    source_id,
};
use crate::scan::{copy_verdict, verdict_view, Verdict, VerdictView};
use crate::sources::{Source, SourceKind, SourceView};
use crate::text::{is_suffix, to_vec};

verus! {

/// A file that the walk of the source tree found: its path, its text, and
/// what the parser said of the text.
#[derive(Debug)]
pub struct SourceFile {
    pub path: Vec<u8>,
    pub content: Vec<u8>,
    pub parsed: Verdict,
}

/// Where the browser artifact of a source goes, relative to the output
/// root. It is the source's identifier: the output tree mirrors the source
/// tree.
#[derive(Debug)]
pub struct OutputFile {
    pub dest: Vec<u8>,
}

/// A file to write: its path and its content.
#[derive(Debug)]
pub struct Artifact {
    pub path: Vec<u8>,
    pub code: Vec<u8>,
}

/// The two artifacts of one source.
#[derive(Debug)]
pub struct CompiledModule {
    pub source_id: Vec<u8>,
    pub browser: Artifact,
    pub server: Artifact,
}

/// Why the sources could not be compiled.
#[derive(Debug)]
pub enum CompileFilesError {
    /// A module file at `path` that does not lie in the project.
    OutsideProject { path: Vec<u8> },
    /// A module that does not compile.
    Compile(CompileError),
}

/// The model of a [`SourceFile`].
pub struct SourceFileView {
    pub path: Seq<u8>,
    pub content: Seq<u8>,
    pub parsed: VerdictView,
}

/// The model of an [`Artifact`].
pub struct ArtifactView {
    pub path: Seq<u8>,
    pub code: Seq<u8>,
}

/// The model of a [`CompiledModule`].
pub struct CompiledModuleView {
    pub source_id: Seq<u8>,
    pub browser: ArtifactView,
    pub server: ArtifactView,
}

/// The model of a [`CompileFilesError`].
pub enum CompileFilesErrorView {
    OutsideProject { path: Seq<u8> },
    Compile(CompileErrorView),
}

impl View for SourceFile {
    type V = SourceFileView;

    open spec fn view(&self) -> SourceFileView {
        SourceFileView {
            path: self.path@,
            content: self.content@,
            parsed: verdict_view(self.parsed),
        }
    }
}

impl View for Artifact {
    type V = ArtifactView;

    open spec fn view(&self) -> ArtifactView {
        ArtifactView { path: self.path@, code: self.code@ }
    }
}

impl View for CompiledModule {
    type V = CompiledModuleView;

    open spec fn view(&self) -> CompiledModuleView {
        CompiledModuleView {
            source_id: self.source_id@,
            browser: self.browser@,
            server: self.server@,
        }
    }
}

impl View for CompileFilesError {
    type V = CompileFilesErrorView;

    open spec fn view(&self) -> CompileFilesErrorView {
        match self {
            CompileFilesError::OutsideProject { path } => CompileFilesErrorView::OutsideProject {
                path: path@,
            },
            CompileFilesError::Compile(e) => CompileFilesErrorView::Compile(e@),
        }
    }
}

/// The views of the files held in a vector.
pub open spec fn file_views(v: Seq<SourceFile>) -> Seq<SourceFileView> {
    Seq::new(v.len(), |i: int| v[i]@)
}

/// The views of the compiled modules held in a vector.
pub open spec fn module_views(v: Seq<CompiledModule>) -> Seq<CompiledModuleView> {
    Seq::new(v.len(), |i: int| v[i]@)
}

/// The model of what [`compile_js`] returns.
pub open spec fn module_outcome_view(r: Result<CompiledModule, CompileError>) -> Result<
    CompiledModuleView,
    CompileErrorView,
> {
    match r {
        Ok(m) => Ok(m@),
        Err(e) => Err(e@),
    }
}

/// The model of what [`compile_src_files`] returns.
pub open spec fn files_outcome_view(r: Result<Vec<CompiledModule>, CompileFilesError>) -> Result<
    Seq<CompiledModuleView>,
    CompileFilesErrorView,
> {
    match r {
        Ok(v) => Ok(module_views(v@)),
        Err(e) => Err(e@),
    }
}

/// The two artifacts of the source `source_id`: the browser variant at
/// `dest` under the output root, the server variant at `dest` under the
/// staging root. The browser variant is made first, so a module that fails
/// for both targets fails with the browser's error.
pub open spec fn module_artifacts(
    source_id: Seq<u8>,
    dest: Seq<u8>,
    output_dir: Seq<u8>,
    tmp_dir: Seq<u8>,
    sources: Map<Seq<u8>, SourceView>,
    imports: Map<Seq<u8>, Seq<u8>>,
) -> Result<CompiledModuleView, CompileErrorView> {
    if !sources.contains_key(source_id) {
        Err(CompileErrorView::UnknownSource { module: source_id })
    } else {
        let text = sources[source_id].source;
        let parsed = sources[source_id].parsed;
        match browser_js(source_id, text, parsed, sources.dom(), imports) {
            Err(e) => Err(e),
            Ok(browser) => match server_js(source_id, text, parsed) {
                Err(e) => Err(e),
                Ok(server) => Ok(
                    CompiledModuleView {
                        source_id,
                        browser: ArtifactView { path: placed(output_dir, dest), code: browser },
                        server: ArtifactView { path: placed(tmp_dir, dest), code: server },
                    },
                ),
            },
        }
    }
}

/// Whether `file` follows the module file convention.
pub open spec fn is_module(file: SourceFileView) -> bool {
    is_suffix(module_extension(), file.path)
}

/// The path of the first module file among `files` that does not lie below
/// `root`.
pub open spec fn first_outside(root: Seq<u8>, files: Seq<SourceFileView>) -> Option<Seq<u8>>
    decreases files.len(),
{
    if files.len() == 0 {
        None
    } else {
        match first_outside(root, files.drop_last()) {
            Some(p) => Some(p),
            None => if is_module(files.last()) && below(root, files.last().path) is None {
                Some(files.last().path)
            } else {
                None
            },
        }
    }
}

/// The sources after the module files among `files` are registered, each
/// under its path as seen from `root`, in the order of `files`. Files that
/// are no module files, or lie outside the project, are passed over.
pub open spec fn registered(
    root: Seq<u8>,
    files: Seq<SourceFileView>,
    sources: Map<Seq<u8>, SourceView>,
) -> Map<Seq<u8>, SourceView>
    decreases files.len(),
{
    if files.len() == 0 {
        sources
    } else {
        let before = registered(root, files.drop_last(), sources);
        let file = files.last();
        if is_module(file) && below(root, file.path) is Some {
            before.insert(below(root, file.path).unwrap(), file_record(
                    file.path,
                    file.content,
                    file.parsed,
                ))
        } else {
            before
        }
    }
}

/// The identifiers of the module files among `files`, each once, in the
/// order in which `files` first holds them.
pub open spec fn discovered(root: Seq<u8>, files: Seq<SourceFileView>) -> Seq<Seq<u8>>
    decreases files.len(),
{
    if files.len() == 0 {
        Seq::empty()
    } else {
        let before = discovered(root, files.drop_last());
        let file = files.last();
        if is_module(file) && below(root, file.path) is Some && !before.contains(
            below(root, file.path).unwrap(),
        ) {
            before.push(below(root, file.path).unwrap())
        } else {
            before
        }
    }
}

/// The artifacts of the first `k` of `ids`, in their order, or the error
/// of the first of them that does not compile.
pub open spec fn modules_compiled(
    ids: Seq<Seq<u8>>,
    k: int,
    output_dir: Seq<u8>,
    tmp_dir: Seq<u8>,
    sources: Map<Seq<u8>, SourceView>,
    imports: Map<Seq<u8>, Seq<u8>>,
) -> Result<Seq<CompiledModuleView>, CompileErrorView>
    decreases k,
{
    if k <= 0 {
        Ok(Seq::empty())
    } else {
        match modules_compiled(ids, k - 1, output_dir, tmp_dir, sources, imports) {
            Err(e) => Err(e),
            Ok(done) => match module_artifacts(
                ids[k - 1],
                ids[k - 1],
                output_dir,
                tmp_dir,
                sources,
                imports,
            ) {
                Err(e) => Err(e),
                Ok(m) => Ok(done.push(m)),
            },
        }
    }
}

/// What compiling the files of a project gives: the artifacts of every
/// module file, in the order of discovery, or the first error. Nothing is
/// compiled when a module file lies outside the project, and no artifact
/// is given when any module fails.
pub open spec fn src_files_compiled(
    root: Seq<u8>,
    files: Seq<SourceFileView>,
    output_dir: Seq<u8>,
    tmp_dir: Seq<u8>,
    sources: Map<Seq<u8>, SourceView>,
    imports: Map<Seq<u8>, Seq<u8>>,
) -> Result<Seq<CompiledModuleView>, CompileFilesErrorView> {
    match first_outside(root, files) {
        Some(path) => Err(CompileFilesErrorView::OutsideProject { path }),
        None => {
            let ids = discovered(root, files);
            match modules_compiled(
                ids,
                ids.len() as int,
                output_dir,
                tmp_dir,
                registered(root, files, sources),
                imports,
            ) {
                Ok(modules) => Ok(modules),
                Err(e) => Err(CompileFilesErrorView::Compile(e)),
            }
        },
    }
}

/// Whether `file` is a module file of the project at `root` with the
/// identifier `id`.
pub open spec fn has_id(root: Seq<u8>, file: SourceFileView, id: Seq<u8>) -> bool {
    is_module(file) && below(root, file.path) == Some(id)
}

/// No two of the module files among `files` have the same identifier.
pub open spec fn distinct_ids(root: Seq<u8>, files: Seq<SourceFileView>) -> bool {
    forall|i: int, j: int, id: Seq<u8>|
        0 <= i < j < files.len() && #[trigger] has_id(root, files[i], id) ==> !#[trigger] has_id(
            root,
            files[j],
            id,
        )
}

/// The two lists hold the same files, in whatever order.
pub open spec fn same_files(a: Seq<SourceFileView>, b: Seq<SourceFileView>) -> bool {
    forall|f: SourceFileView| a.contains(f) <==> b.contains(f)
}

proof fn lemma_first_outside(root: Seq<u8>, files: Seq<SourceFileView>)
    ensures
        first_outside(root, files) is Some <==> exists|i: int|
            0 <= i < files.len() && is_module(#[trigger] files[i]) && below(root, files[i].path)
                is None,
    decreases files.len(),
{
    if files.len() > 0 {
        let init = files.drop_last();
        lemma_first_outside(root, init);
        if first_outside(root, init) is Some {
            let i = choose|i: int|
                0 <= i < init.len() && is_module(#[trigger] init[i]) && below(root, init[i].path)
                    is None;
            assert(files[i] == init[i]);
        } else if is_module(files.last()) && below(root, files.last().path) is None {
            assert(files[files.len() - 1] == files.last());
        } else {
            assert forall|i: int|
                0 <= i < files.len() && is_module(#[trigger] files[i]) implies below(
                root,
                files[i].path,
            ) is Some by {
                if i < init.len() {
                    assert(init[i] == files[i]);
                }
            }
        }
    }
}

proof fn lemma_registered_ids(root: Seq<u8>, files: Seq<SourceFileView>, id: Seq<u8>)
    ensures
        registered(root, files, Map::empty()).contains_key(id) <==> exists|i: int|
            0 <= i < files.len() && #[trigger] has_id(root, files[i], id),
    decreases files.len(),
{
    if files.len() > 0 {
        let init = files.drop_last();
        lemma_registered_ids(root, init, id);
        if registered(root, init, Map::empty()).contains_key(id) {
            let i = choose|i: int| 0 <= i < init.len() && #[trigger] has_id(root, init[i], id);
            assert(files[i] == init[i]);
        } else if has_id(root, files.last(), id) {
            assert(files[files.len() - 1] == files.last());
        } else {
            assert forall|i: int| 0 <= i < files.len() implies !#[trigger] has_id(
                root,
                files[i],
                id,
            ) by {
                if i < init.len() {
                    assert(init[i] == files[i]);
                }
            }
        }
    }
}

proof fn lemma_registered_record(root: Seq<u8>, files: Seq<SourceFileView>, i: int, id: Seq<u8>)
    requires
        distinct_ids(root, files),
        0 <= i < files.len(),
        has_id(root, files[i], id),
    ensures
        registered(root, files, Map::empty()).contains_key(id),
        registered(root, files, Map::empty())[id] == file_record(
            files[i].path,
            files[i].content,
            files[i].parsed,
        ),
    decreases files.len(),
{
    let init = files.drop_last();
    if i < files.len() - 1 {
        assert(init[i] == files[i]);
        assert(distinct_ids(root, init)) by {
            assert forall|a: int, b: int, x: Seq<u8>|
                0 <= a < b < init.len() && #[trigger] has_id(root, init[a], x) implies !#[trigger] has_id(
                root,
                init[b],
                x,
            ) by {
                assert(init[a] == files[a]);
                assert(init[b] == files[b]);
            }
        }
        lemma_registered_record(root, init, i, id);
        assert(!has_id(root, files[files.len() - 1], id));
    }
}

proof fn lemma_discovered(root: Seq<u8>, files: Seq<SourceFileView>)
    ensures
        discovered(root, files).no_duplicates(),
        forall|id: Seq<u8>|
            discovered(root, files).contains(id) <==> exists|i: int|
                0 <= i < files.len() && #[trigger] has_id(root, files[i], id),
    decreases files.len(),
{
    if files.len() > 0 {
        let init = files.drop_last();
        let before = discovered(root, init);
        let now = discovered(root, files);
        lemma_discovered(root, init);
        assert forall|id: Seq<u8>| now.contains(id) <==> exists|i: int|
            0 <= i < files.len() && #[trigger] has_id(root, files[i], id) by {
            if before.contains(id) {
                let i = choose|i: int| 0 <= i < init.len() && #[trigger] has_id(root, init[i], id);
                assert(files[i] == init[i]);
                let k = choose|k: int| 0 <= k < before.len() && before[k] == id;
                assert(now[k] == id);
            } else if has_id(root, files.last(), id) {
                assert(files[files.len() - 1] == files.last());
                assert(now == before.push(id));
                assert(now[before.len() as int] == id);
            } else {
                assert forall|i: int| 0 <= i < files.len() implies !#[trigger] has_id(
                    root,
                    files[i],
                    id,
                ) by {
                    if i < init.len() {
                        assert(init[i] == files[i]);
                    }
                }
                if now.contains(id) {
                    let k = choose|k: int| 0 <= k < now.len() && now[k] == id;
                    if k < before.len() {
                        assert(before[k] == id);
                    }
                }
            }
        }
    }
}

proof fn lemma_modules_compiled(
    ids: Seq<Seq<u8>>,
    n: int,
    output_dir: Seq<u8>,
    tmp_dir: Seq<u8>,
    sources: Map<Seq<u8>, SourceView>,
    imports: Map<Seq<u8>, Seq<u8>>,
)
    requires
        0 <= n <= ids.len(),
    ensures
        match modules_compiled(ids, n, output_dir, tmp_dir, sources, imports) {
            Ok(modules) => {
                &&& modules.len() == n
                &&& forall|k: int|
                    0 <= k < n ==> module_artifacts(
                        ids[k],
                        ids[k],
                        output_dir,
                        tmp_dir,
                        sources,
                        imports,
                    ) == Ok::<CompiledModuleView, CompileErrorView>(#[trigger] modules[k])
            },
            Err(e) => exists|k: int|
                0 <= k < n && #[trigger] module_artifacts(
                    ids[k],
                    ids[k],
                    output_dir,
                    tmp_dir,
                    sources,
                    imports,
                ) == Err::<CompiledModuleView, CompileErrorView>(e),
        },
    decreases n,
{
    if n > 0 {
        lemma_modules_compiled(ids, n - 1, output_dir, tmp_dir, sources, imports);
        match modules_compiled(ids, n - 1, output_dir, tmp_dir, sources, imports) {
            Err(e) => {
                let k = choose|k: int|
                    0 <= k < n - 1 && #[trigger] module_artifacts(
                        ids[k],
                        ids[k],
                        output_dir,
                        tmp_dir,
                        sources,
                        imports,
                    ) == Err::<CompiledModuleView, CompileErrorView>(e);
                assert(0 <= k < n);
            },
            Ok(done) => {
                match module_artifacts(ids[n - 1], ids[n - 1], output_dir, tmp_dir, sources, imports) {
                    Err(e) => {},
                    Ok(m) => {
                        let modules = done.push(m);
                        assert forall|k: int| 0 <= k < n implies module_artifacts(
                            ids[k],
                            ids[k],
                            output_dir,
                            tmp_dir,
                            sources,
                            imports,
                        ) == Ok::<CompiledModuleView, CompileErrorView>(#[trigger] modules[k]) by {
                            if k < n - 1 {
                                assert(modules[k] == done[k]);
                            }
                        }
                    },
                }
            },
        }
    }
}

/// One failing module fails the whole pass: when every module file lies in
/// the project and the module files have distinct identifiers, a module
/// file whose text does not compile for the browser makes the compilation
/// of the files an error, so that it gives no artifact at all.
pub proof fn lemma_failing_module_fails_pass(
    root: Seq<u8>,
    files: Seq<SourceFileView>,
    output_dir: Seq<u8>,
    tmp_dir: Seq<u8>,
    imports: Map<Seq<u8>, Seq<u8>>,
    i: int,
    id: Seq<u8>,
)
    requires
        distinct_ids(root, files),
        0 <= i < files.len(),
        has_id(root, files[i], id),
        browser_js(
            id,
            files[i].content,
            files[i].parsed,
            registered(root, files, Map::empty()).dom(),
            imports,
        ) is Err,
    ensures
        src_files_compiled(root, files, output_dir, tmp_dir, Map::empty(), imports) is Err,
{
    let sources = registered(root, files, Map::<Seq<u8>, SourceView>::empty());
    let ids = discovered(root, files);
    lemma_registered_record(root, files, i, id);
    lemma_discovered(root, files);
    lemma_modules_compiled(ids, ids.len() as int, output_dir, tmp_dir, sources, imports);
    assert(ids.contains(id));
    let k = choose|k: int| 0 <= k < ids.len() && ids[k] == id;
    assert(module_artifacts(ids[k], ids[k], output_dir, tmp_dir, sources, imports) is Err);
    if let Ok(modules) = modules_compiled(
        ids,
        ids.len() as int,
        output_dir,
        tmp_dir,
        sources,
        imports,
    ) {
        assert(module_artifacts(ids[k], ids[k], output_dir, tmp_dir, sources, imports) == Ok::<
            CompiledModuleView,
            CompileErrorView,
        >(modules[k]));
    }
}

/// A broken module anywhere fails the whole pass: when every module file
/// lies in the project and the parser reported a fault in the text of a
/// registered source, the compilation of the files is an error, so that it
/// gives no artifact at all, however well the other modules compile.
pub proof fn lemma_broken_module_fails_pass(
    root: Seq<u8>,
    files: Seq<SourceFileView>,
    output_dir: Seq<u8>,
    tmp_dir: Seq<u8>,
    imports: Map<Seq<u8>, Seq<u8>>,
    id: Seq<u8>,
)
    requires
        registered(root, files, Map::empty()).contains_key(id),
        registered(root, files, Map::empty())[id].parsed is Err,
    ensures
        src_files_compiled(root, files, output_dir, tmp_dir, Map::empty(), imports) is Err,
{
    let sources = registered(root, files, Map::<Seq<u8>, SourceView>::empty());
    let ids = discovered(root, files);
    lemma_registered_ids(root, files, id);
    lemma_discovered(root, files);
    lemma_modules_compiled(ids, ids.len() as int, output_dir, tmp_dir, sources, imports);
    assert(ids.contains(id));
    let k = choose|k: int| 0 <= k < ids.len() && ids[k] == id;
    assert(module_artifacts(ids[k], ids[k], output_dir, tmp_dir, sources, imports) is Err);
    if let Ok(modules) = modules_compiled(
        ids,
        ids.len() as int,
        output_dir,
        tmp_dir,
        sources,
        imports,
    ) {
        assert(module_artifacts(ids[k], ids[k], output_dir, tmp_dir, sources, imports) == Ok::<
            CompiledModuleView,
            CompileErrorView,
        >(modules[k]));
    }
}

/// The same of a file: among module files with distinct identifiers, one
/// in whose text the parser reported a fault fails the whole pass.
pub proof fn lemma_broken_file_fails_pass(
    root: Seq<u8>,
    files: Seq<SourceFileView>,
    output_dir: Seq<u8>,
    tmp_dir: Seq<u8>,
    imports: Map<Seq<u8>, Seq<u8>>,
    i: int,
    id: Seq<u8>,
)
    requires
        distinct_ids(root, files),
        0 <= i < files.len(),
        has_id(root, files[i], id),
        files[i].parsed is Err,
    ensures
        src_files_compiled(root, files, output_dir, tmp_dir, Map::empty(), imports) is Err,
{
    lemma_registered_record(root, files, i, id);
    lemma_broken_module_fails_pass(root, files, output_dir, tmp_dir, imports, id);
}

/// The output trees mirror the source tree: when the files of a project
/// compile, there is one compiled module for each discovered identifier,
/// in the order of discovery, with its browser artifact at the identifier
/// under the output root and its server artifact at the identifier under
/// the staging root.
pub proof fn lemma_artifacts_mirror_sources(
    root: Seq<u8>,
    files: Seq<SourceFileView>,
    output_dir: Seq<u8>,
    tmp_dir: Seq<u8>,
    imports: Map<Seq<u8>, Seq<u8>>,
)
    ensures
        src_files_compiled(root, files, output_dir, tmp_dir, Map::empty(), imports) matches Ok(
            modules,
        ) ==> {
            let ids = discovered(root, files);
            &&& modules.len() == ids.len()
            &&& ids.no_duplicates()
            &&& forall|k: int|
                0 <= k < modules.len() ==> {
                    &&& (#[trigger] modules[k]).source_id == ids[k]
                    &&& modules[k].browser.path == placed(output_dir, ids[k])
                    &&& modules[k].server.path == placed(tmp_dir, ids[k])
                }
        },
{
    let sources = registered(root, files, Map::<Seq<u8>, SourceView>::empty());
    let ids = discovered(root, files);
    lemma_discovered(root, files);
    lemma_modules_compiled(ids, ids.len() as int, output_dir, tmp_dir, sources, imports);
}

/// Relative linking, from end to end: when the files of a project compile
/// and a module holds a relative specifier that names a registered module,
/// then what the browser variant holds in its place, read in the module's
/// browser artifact, names the browser artifact of that module; and what
/// the server variant holds in its place, read in the module's server
/// artifact, names the server artifact of that module.
pub proof fn lemma_links_reach_sibling_artifacts(
    root: Seq<u8>,
    files: Seq<SourceFileView>,
    output_dir: Seq<u8>,
    tmp_dir: Seq<u8>,
    imports: Map<Seq<u8>, Seq<u8>>,
    k: int,
    specifier: Seq<u8>,
    sibling: Seq<u8>,
)
    requires
        src_files_compiled(root, files, output_dir, tmp_dir, Map::empty(), imports) is Ok,
        0 <= k < discovered(root, files).len(),
        relative(specifier),
        link_target(discovered(root, files)[k], specifier) == Some(sibling),
        registered(root, files, Map::empty()).contains_key(sibling),
    ensures
        ({
            let modules = src_files_compiled(
                root,
                files,
                output_dir,
                tmp_dir,
                Map::empty(),
                imports,
            )->Ok_0;
            let target = TargetView::Browser {
                module: modules[k].source_id,
                modules: registered(root, files, Map::empty()).dom(),
                imports,
            };
            exists|j: int|
                {
                    &&& 0 <= j < modules.len()
                    &&& (#[trigger] modules[j]).source_id == sibling
                    &&& forall|quote: u8|
                        (#[trigger] replacement(target, specifier, quote)) matches Some(written)
                            && resolved(modules[k].browser.path, written) == Some(
                            modules[j].browser.path,
                        )
                    &&& forall|quote: u8|
                        (#[trigger] replacement(TargetView::Server, specifier, quote)) matches Some(
                            written,
                        ) && resolved(modules[k].server.path, written) == Some(
                            modules[j].server.path,
                        )
                }
        }),
{
    let sources = registered(root, files, Map::<Seq<u8>, SourceView>::empty());
    let ids = discovered(root, files);
    let modules = src_files_compiled(root, files, output_dir, tmp_dir, Map::empty(), imports)->Ok_0;
    lemma_artifacts_mirror_sources(root, files, output_dir, tmp_dir, imports);
    lemma_registered_ids(root, files, sibling);
    lemma_discovered(root, files);
    assert(ids.contains(sibling));
    let j = choose|j: int| 0 <= j < ids.len() && ids[j] == sibling;
    lemma_relative_link_reaches_artifact(output_dir, ids[k], specifier, sibling, sources.dom(), imports);
    lemma_relative_link_reaches_artifact(tmp_dir, ids[k], specifier, sibling, sources.dom(), imports);
    assert(modules[j].source_id == sibling);
    assert(modules[k].source_id == ids[k]);
}

/// The order of discovery is immaterial: two walks that find the same
/// files, each with its own identifier, either both compile or both fail,
/// and when they compile they give the same artifacts for the same
/// sources.
pub proof fn lemma_order_of_discovery_is_immaterial(
    root: Seq<u8>,
    first: Seq<SourceFileView>,
    second: Seq<SourceFileView>,
    output_dir: Seq<u8>,
    tmp_dir: Seq<u8>,
    imports: Map<Seq<u8>, Seq<u8>>,
)
    requires
        same_files(first, second),
        distinct_ids(root, first),
        distinct_ids(root, second),
    ensures
        ({
            let a = src_files_compiled(root, first, output_dir, tmp_dir, Map::empty(), imports);
            let b = src_files_compiled(root, second, output_dir, tmp_dir, Map::empty(), imports);
            &&& a is Ok <==> b is Ok
            &&& a is Ok ==> a->Ok_0.len() == b->Ok_0.len()
            &&& a is Ok ==> forall|m: CompiledModuleView|
                a->Ok_0.contains(m) <==> b->Ok_0.contains(m)
        }),
{
    let empty = Map::<Seq<u8>, SourceView>::empty();
    let sources1 = registered(root, first, empty);
    let sources2 = registered(root, second, empty);
    let ids1 = discovered(root, first);
    let ids2 = discovered(root, second);
    lemma_first_outside(root, first);
    lemma_first_outside(root, second);
    // A file outside the project is outside it in both walks.
    assert(first_outside(root, first) is Some <==> first_outside(root, second) is Some) by {
        lemma_same_files_symmetric(first, second);
        lemma_outside_carries_over(root, first, second);
        lemma_outside_carries_over(root, second, first);
    }
    // The same identifiers are found, and the same sources are registered.
    lemma_discovered(root, first);
    lemma_discovered(root, second);
    assert forall|id: Seq<u8>| ids1.contains(id) <==> ids2.contains(id) by {
        lemma_same_files_symmetric(first, second);
        lemma_id_carries_over(root, first, second, id);
        lemma_id_carries_over(root, second, first, id);
    }
    assert(sources1 =~= sources2) by {
        assert forall|id: Seq<u8>| sources1.contains_key(id) == sources2.contains_key(id) by {
            lemma_registered_ids(root, first, id);
            lemma_registered_ids(root, second, id);
            lemma_same_files_symmetric(first, second);
            lemma_id_carries_over(root, first, second, id);
            lemma_id_carries_over(root, second, first, id);
        }
        assert forall|id: Seq<u8>| sources1.contains_key(id) implies sources1[id]
            == sources2[id] by {
            lemma_registered_ids(root, first, id);
            let i = choose|i: int| 0 <= i < first.len() && #[trigger] has_id(root, first[i], id);
            assert(first.contains(first[i]));
            assert(second.contains(first[i]));
            let j = choose|j: int| 0 <= j < second.len() && second[j] == first[i];
            lemma_registered_record(root, first, i, id);
            lemma_registered_record(root, second, j, id);
        }
    }
    ids1.unique_seq_to_set();
    ids2.unique_seq_to_set();
    assert(ids1.to_set() =~= ids2.to_set());
    lemma_modules_compiled(ids1, ids1.len() as int, output_dir, tmp_dir, sources1, imports);
    lemma_modules_compiled(ids2, ids2.len() as int, output_dir, tmp_dir, sources1, imports);
    if first_outside(root, first) is None {
        lemma_compiled_carries_over(ids1, ids2, output_dir, tmp_dir, sources1, imports);
        lemma_compiled_carries_over(ids2, ids1, output_dir, tmp_dir, sources1, imports);
    }
}

proof fn lemma_same_files_symmetric(a: Seq<SourceFileView>, b: Seq<SourceFileView>)
    requires
        same_files(a, b),
    ensures
        same_files(b, a),
{
}

proof fn lemma_outside_carries_over(
    root: Seq<u8>,
    a: Seq<SourceFileView>,
    b: Seq<SourceFileView>,
)
    requires
        same_files(a, b),
    ensures
        (exists|i: int|
            0 <= i < a.len() && is_module(#[trigger] a[i]) && below(root, a[i].path) is None)
            ==> (exists|i: int|
            0 <= i < b.len() && is_module(#[trigger] b[i]) && below(root, b[i].path) is None),
{
    if exists|i: int|
        0 <= i < a.len() && is_module(#[trigger] a[i]) && below(root, a[i].path) is None {
        let i = choose|i: int|
            0 <= i < a.len() && is_module(#[trigger] a[i]) && below(root, a[i].path) is None;
        assert(a.contains(a[i]));
        assert(b.contains(a[i]));
        let j = choose|j: int| 0 <= j < b.len() && b[j] == a[i];
        assert(is_module(b[j]) && below(root, b[j].path) is None);
    }
}

proof fn lemma_id_carries_over(
    root: Seq<u8>,
    a: Seq<SourceFileView>,
    b: Seq<SourceFileView>,
    id: Seq<u8>,
)
    requires
        same_files(a, b),
    ensures
        (exists|i: int| 0 <= i < a.len() && #[trigger] has_id(root, a[i], id)) ==> (exists|i: int|
            0 <= i < b.len() && #[trigger] has_id(root, b[i], id)),
{
    if exists|i: int| 0 <= i < a.len() && #[trigger] has_id(root, a[i], id) {
        let i = choose|i: int| 0 <= i < a.len() && #[trigger] has_id(root, a[i], id);
        assert(a.contains(a[i]));
        assert(b.contains(a[i]));
        let j = choose|j: int| 0 <= j < b.len() && b[j] == a[i];
        assert(has_id(root, b[j], id));
    }
}

proof fn lemma_compiled_carries_over(
    ids1: Seq<Seq<u8>>,
    ids2: Seq<Seq<u8>>,
    output_dir: Seq<u8>,
    tmp_dir: Seq<u8>,
    sources: Map<Seq<u8>, SourceView>,
    imports: Map<Seq<u8>, Seq<u8>>,
)
    requires
        forall|id: Seq<u8>| ids1.contains(id) <==> ids2.contains(id),
    ensures
        ({
            let a = modules_compiled(ids1, ids1.len() as int, output_dir, tmp_dir, sources, imports);
            let b = modules_compiled(ids2, ids2.len() as int, output_dir, tmp_dir, sources, imports);
            &&& a is Ok ==> b is Ok
            &&& a is Ok ==> forall|m: CompiledModuleView|
                a->Ok_0.contains(m) ==> b->Ok_0.contains(m)
        }),
{
    let a = modules_compiled(ids1, ids1.len() as int, output_dir, tmp_dir, sources, imports);
    let b = modules_compiled(ids2, ids2.len() as int, output_dir, tmp_dir, sources, imports);
    lemma_modules_compiled(ids1, ids1.len() as int, output_dir, tmp_dir, sources, imports);
    lemma_modules_compiled(ids2, ids2.len() as int, output_dir, tmp_dir, sources, imports);
    if a is Ok {
        if let Err(e) = b {
            let k = choose|k: int|
                0 <= k < ids2.len() && #[trigger] module_artifacts(
                    ids2[k],
                    ids2[k],
                    output_dir,
                    tmp_dir,
                    sources,
                    imports,
                ) == Err::<CompiledModuleView, CompileErrorView>(e);
            assert(ids2.contains(ids2[k]));
            assert(ids1.contains(ids2[k]));
            let j = choose|j: int| 0 <= j < ids1.len() && ids1[j] == ids2[k];
            assert(module_artifacts(ids1[j], ids1[j], output_dir, tmp_dir, sources, imports)
                == Ok::<CompiledModuleView, CompileErrorView>(a->Ok_0[j]));
        }
        assert forall|m: CompiledModuleView| a->Ok_0.contains(m) implies b->Ok_0.contains(m) by {
            let j = choose|j: int| 0 <= j < a->Ok_0.len() && a->Ok_0[j] == m;
            assert(ids1.contains(ids1[j]));
            assert(ids2.contains(ids1[j]));
            let k = choose|k: int| 0 <= k < ids2.len() && ids2[k] == ids1[j];
            assert(module_artifacts(ids2[k], ids2[k], output_dir, tmp_dir, sources, imports)
                == Ok::<CompiledModuleView, CompileErrorView>(b->Ok_0[k]));
            assert(b->Ok_0[k] == m);
        }
    }
}

/// Compiles the source `source_id` for both targets and says where each
/// artifact goes: the browser variant to `output_file.dest` under
/// `output_dir`, the server variant to the same place under `tmp_dir`.
pub fn compile_js(
    source_id: &[u8],
    output_file: &OutputFile,
    output_dir: &[u8],
    import_map: &ImportMap,
    cache: &Cache,
    tmp_dir: &[u8],
) -> (r: Result<CompiledModule, CompileError>)
    requires
        cache.wf(),
        import_map.wf(),
    ensures
        module_outcome_view(r) == module_artifacts(
            source_id@,
            output_file.dest@,
            output_dir@,
            tmp_dir@,
            cache@,
            import_map@,
        ),
{
    let browser_output_file = join_path(output_dir, output_file.dest.as_slice());
    let js_browser = match cache.get_js_for_browser(source_id, import_map) {
        Ok(code) => code,
        Err(e) => {
            return Err(e);
        },
    };
    let js_node = match cache.get_js_for_server(source_id) {
        Ok(code) => code,
        Err(e) => {
            return Err(e);
        },
    };
    let node_output_file = join_path(tmp_dir, output_file.dest.as_slice());
    Ok(
        CompiledModule {
            source_id: to_vec(source_id),
            browser: Artifact { path: browser_output_file, code: js_browser },
            server: Artifact { path: node_output_file, code: js_node },
        },
    )
}

proof fn lemma_first_outside_stays(root: Seq<u8>, files: Seq<SourceFileView>, k: int, n: int)
    requires
        0 <= k < n <= files.len(),
        first_outside(root, files.take(k)) is None,
        is_module(files[k]) && below(root, files[k].path) is None,
    ensures
        first_outside(root, files.take(n)) == Some(files[k].path),
    decreases n,
{
    assert(files.take(n).drop_last() == files.take(n - 1));
    assert(files.take(n).last() == files[n - 1]);
    if n > k + 1 {
        lemma_first_outside_stays(root, files, k, n - 1);
    }
}

proof fn lemma_modules_compiled_stays(
    ids: Seq<Seq<u8>>,
    k: int,
    n: int,
    output_dir: Seq<u8>,
    tmp_dir: Seq<u8>,
    sources: Map<Seq<u8>, SourceView>,
    imports: Map<Seq<u8>, Seq<u8>>,
)
    requires
        0 <= k <= n,
        modules_compiled(ids, k, output_dir, tmp_dir, sources, imports) is Err,
    ensures
        modules_compiled(ids, n, output_dir, tmp_dir, sources, imports) == modules_compiled(
            ids,
            k,
            output_dir,
            tmp_dir,
            sources,
            imports,
        ),
    decreases n,
{
    if n > k {
        lemma_modules_compiled_stays(ids, k, n - 1, output_dir, tmp_dir, sources, imports);
    }
}

/// Registers every module file among `files` in `cache` and compiles each
/// registered file for both targets. `project_root_dir` is the directory
/// that identifiers are relative to. Returns the artifacts in the order of
/// discovery; fails, with no artifact, at the first module that does not
/// compile, and before registering anything when a module file lies
/// outside the project.
pub fn compile_src_files(
    project_root_dir: &[u8],
    files: &Vec<SourceFile>,
    output_dir: &[u8],
    import_map: &ImportMap,
    cache: &mut Cache,
    tmp_dir: &[u8],
) -> (r: Result<Vec<CompiledModule>, CompileFilesError>)
    requires
        old(cache).wf(),
        import_map.wf(),
    ensures
        final(cache).wf(),
        files_outcome_view(r) == src_files_compiled(
            project_root_dir@,
            file_views(files@),
            output_dir@,
            tmp_dir@,
            old(cache)@,
            import_map@,
        ),
        final(cache)@ == if first_outside(project_root_dir@, file_views(files@)) is Some {
            old(cache)@
        } else {
            registered(project_root_dir@, file_views(files@), old(cache)@)
        },
{
    let ghost root = project_root_dir@;
    let ghost all = file_views(files@);
    let ghost sources0 = cache@;
    // Every module file must lie in the project.
    let mut i: usize = 0;
    assert(all.take(0) == Seq::<SourceFileView>::empty());
    while i < files.len()
        invariant
            i <= files.len(),
            all == file_views(files@),
            root == project_root_dir@,
            cache.wf(),
            cache@ == old(cache)@,
            first_outside(root, all.take(i as int)) is None,
        decreases files.len() - i,
    {
        let file = &files[i];
        proof {
            assert(all.take(i + 1).drop_last() == all.take(i as int));
            assert(all.take(i + 1).last() == file@);
            assert(all[i as int] == file@);
        }
        if is_module_file(file.path.as_slice()) {
            if source_id(project_root_dir, file.path.as_slice()).is_none() {
                proof {
                    lemma_first_outside_stays(root, all, i as int, files.len() as int);
                    assert(all.take(files.len() as int) == all);
                }
                return Err(
                    CompileFilesError::OutsideProject {
                        path: to_vec(file.path.as_slice()),
                    },
                );
            }
        }
        i += 1;
    }
    assert(all.take(files.len() as int) == all);
    // Insert the source files into the cache, and keep the destination of
    // each by source identifier.
    let mut files_by_source_id: ByteMap<OutputFile> = ByteMap::new();
    let mut i: usize = 0;
    while i < files.len()
        invariant
            i <= files.len(),
            all == file_views(files@),
            root == project_root_dir@,
            cache.wf(),
            files_by_source_id.wf(),
            cache@ == registered(root, all.take(i as int), sources0),
            files_by_source_id.keys() == discovered(root, all.take(i as int)),
            forall|k: int|
                0 <= k < files_by_source_id.keys().len() ==> (#[trigger] files_by_source_id@[files_by_source_id.keys()[k]]).dest@
                    == files_by_source_id.keys()[k],
        decreases files.len() - i,
    {
        let file = &files[i];
        proof {
            assert(all.take(i + 1).drop_last() == all.take(i as int));
            assert(all.take(i + 1).last() == file@);
            files_by_source_id.lemma_model();
        }
        if is_module_file(file.path.as_slice()) {
            match source_id(project_root_dir, file.path.as_slice()) {
                Some(id) => {
                    let path = to_vec(file.path.as_slice());
                    let content = to_vec(file.content.as_slice());
                    let parsed = copy_verdict(&file.parsed);
                    cache.set_source(
                        id.as_slice(),
                        Source {
                            source: content,
                            kind: SourceKind::File { relative_path: path },
                            parsed,
                        },
                    );
                    if !files_by_source_id.contains_key(id.as_slice()) {
                        let dest = to_vec(id.as_slice());
                        let ghost before = files_by_source_id;
                        files_by_source_id.insert(id, OutputFile { dest });
                        proof {
                            files_by_source_id.lemma_model();
                            assert forall|k: int|
                                0 <= k < files_by_source_id.keys().len() implies (
                            #[trigger] files_by_source_id@[files_by_source_id.keys()[k]]).dest@
                                == files_by_source_id.keys()[k] by {
                                if k < before.keys().len() {
                                    assert(before.keys()[k] == files_by_source_id.keys()[k]);
                                    assert(before.keys().contains(before.keys()[k]));
                                }
                            }
                        }
                    }
                },
                None => {},
            }
        }
        i += 1;
    }
    assert(all.take(files.len() as int) == all);
    // Compile each registered file.
    let ghost ids = files_by_source_id.keys();
    let ghost sources = cache@;
    let mut modules: Vec<CompiledModule> = Vec::new();
    let mut k: usize = 0;
    let n = files_by_source_id.len();
    assert(module_views(modules@) == Seq::<CompiledModuleView>::empty());
    while k < n
        invariant
            k <= n,
            n == ids.len(),
            all == file_views(files@),
            root == project_root_dir@,
            first_outside(root, all) is None,
            ids == discovered(root, all),
            sources == registered(root, all, old(cache)@),
            cache.wf(),
            import_map.wf(),
            files_by_source_id.wf(),
            ids == files_by_source_id.keys(),
            sources == cache@,
            forall|j: int|
                0 <= j < ids.len() ==> (#[trigger] files_by_source_id@[ids[j]]).dest@ == ids[j],
            modules_compiled(ids, k as int, output_dir@, tmp_dir@, sources, import_map@) == Ok::<
                Seq<CompiledModuleView>,
                CompileErrorView,
            >(module_views(modules@)),
        decreases n - k,
    {
        let source_id = files_by_source_id.key_at(k);
        let output_file = files_by_source_id.value_at(k);
        assert(output_file.dest@ == ids[k as int]);
        match compile_js(
            source_id.as_slice(),
            output_file,
            output_dir,
            import_map,
            cache,
            tmp_dir,
        ) {
            Ok(m) => {
                let ghost before = module_views(modules@);
                modules.push(m);
                assert(module_views(modules@) == before.push(m@));
            },
            Err(e) => {
                proof {
                    lemma_modules_compiled_stays(
                        ids,
                        k + 1,
                        n as int,
                        output_dir@,
                        tmp_dir@,
                        sources,
                        import_map@,
                    );
                }
                return Err(CompileFilesError::Compile(e));
            },
        }
        k += 1;
    }
    Ok(modules)
}

} // verus!
