use toastnapi::cache;
use toastnapi::compile::CompileError;
use toastnapi::import_map::ImportMap;
use toastnapi::output::{compile_js, compile_src_files, CompileFilesError, OutputFile, SourceFile};
use toastnapi::scan::{scan, Fault, ParseError};
use toastnapi::sources::{Source, SourceKind};

fn bytes(s: &str) -> Vec<u8> {
    s.as_bytes().to_vec()
}

fn file(path: &str, content: &str) -> SourceFile {
    SourceFile { path: bytes(path), content: bytes(content), parsed: scan(content.as_bytes()) }
}

fn lodash_map() -> ImportMap {
    let mut map = ImportMap::new();
    map.insert(b"lodash", b"/web_modules/lodash.js");
    map
}

#[test]
fn a_source_compiles_into_two_artifacts() {
    let mut cache = cache::init();
    cache.set_source(
        b"src/a.js",
        Source {
            source: bytes("import _ from 'lodash';"),
            kind: SourceKind::Raw,
            parsed: scan(b"import _ from 'lodash';"),
        },
    );
    let out = compile_js(
        b"src/a.js",
        &OutputFile { dest: bytes("src/a.js") },
        b"/site/public",
        &lodash_map(),
        &cache,
        b"/site/.tmp",
    )
    .unwrap();
    assert_eq!(out.source_id, bytes("src/a.js"));
    assert_eq!(out.browser.path, bytes("/site/public/src/a.js"));
    assert_eq!(out.browser.code, bytes("import _ from '/web_modules/lodash.js';"));
    assert_eq!(out.server.path, bytes("/site/.tmp/src/a.js"));
    assert_eq!(out.server.code, bytes("import _ from 'lodash';"));
}

#[test]
fn a_source_that_is_not_registered_does_not_compile() {
    let cache = cache::init();
    let r = compile_js(
        b"src/a.js",
        &OutputFile { dest: bytes("src/a.js") },
        b"out",
        &ImportMap::new(),
        &cache,
        b"tmp",
    );
    assert!(matches!(r, Err(CompileError::UnknownSource { .. })));
}

#[test]
fn every_module_file_is_compiled_in_the_order_found() {
    let files = vec![
        file("/site/src/pages/index.js", "import { u } from './util';\nimport _ from 'lodash';\n"),
        file("/site/src/pages/util.js", "export const u = 1;\n"),
        file("/site/src/readme.md", "import nothing from 'nowhere'"),
    ];
    let mut cache = cache::init();
    let modules = compile_src_files(
        b"/site",
        &files,
        b"/site/public",
        &lodash_map(),
        &mut cache,
        b"/site/.tmp",
    )
    .unwrap();
    assert_eq!(modules.len(), 2);
    assert_eq!(modules[0].source_id, bytes("src/pages/index.js"));
    assert_eq!(modules[0].browser.path, bytes("/site/public/src/pages/index.js"));
    assert_eq!(
        modules[0].browser.code,
        bytes("import { u } from './util.js';\nimport _ from '/web_modules/lodash.js';\n")
    );
    assert_eq!(modules[0].server.path, bytes("/site/.tmp/src/pages/index.js"));
    assert_eq!(
        modules[0].server.code,
        bytes("import { u } from './util.js';\nimport _ from 'lodash';\n")
    );
    assert_eq!(modules[1].source_id, bytes("src/pages/util.js"));
    assert_eq!(modules[1].browser.code, bytes("export const u = 1;\n"));
    assert_eq!(modules[1].server.code, bytes("export const u = 1;\n"));
    assert_eq!(cache.len(), 2);
    assert!(cache.contains(b"src/pages/index.js"));
    assert!(cache.contains(b"src/pages/util.js"));
    assert!(!cache.contains(b"src/readme.md"));
}

#[test]
fn a_link_to_a_module_found_later_is_a_link_to_a_module() {
    let files = vec![file("p/src/a.js", "import b from './b';"), file("p/src/b.js", "")];
    let mut cache = cache::init();
    let modules =
        compile_src_files(b"p", &files, b"out", &ImportMap::new(), &mut cache, b"tmp").unwrap();
    assert_eq!(modules[0].browser.code, bytes("import b from './b.js';"));
}

#[test]
fn one_failing_module_fails_the_whole_pass() {
    let files = vec![
        file("/site/src/good.js", "export default 1;"),
        file("/site/src/bad.js", "import x from 'unknown-package';"),
        file("/site/src/also_good.js", "export default 2;"),
    ];
    let mut cache = cache::init();
    let r = compile_src_files(b"/site", &files, b"/out", &lodash_map(), &mut cache, b"/tmp");
    match r {
        Err(CompileFilesError::Compile(CompileError::Unresolved { module, specifier })) => {
            assert_eq!(module, bytes("src/bad.js"));
            assert_eq!(specifier, bytes("unknown-package"));
        }
        other => panic!("expected an unresolved dependency, got {:?}", other),
    }
}

#[test]
fn the_first_failing_module_is_reported() {
    let files = vec![
        file("/site/src/one.js", "const s = 'open"),
        file("/site/src/two.js", "import x from 'unknown-package';"),
    ];
    let mut cache = cache::init();
    let r = compile_src_files(b"/site", &files, b"/out", &ImportMap::new(), &mut cache, b"/tmp");
    match r {
        Err(CompileFilesError::Compile(CompileError::Parse { module, .. })) => {
            assert_eq!(module, bytes("src/one.js"))
        }
        other => panic!("expected a parse error, got {:?}", other),
    }
}

#[test]
fn a_module_file_outside_the_project_stops_the_pass() {
    let files = vec![file("/site/src/a.js", ""), file("/other/src/b.js", "")];
    let mut cache = cache::init();
    let r = compile_src_files(b"/site", &files, b"/out", &ImportMap::new(), &mut cache, b"/tmp");
    match r {
        Err(CompileFilesError::OutsideProject { path }) => {
            assert_eq!(path, bytes("/other/src/b.js"))
        }
        other => panic!("expected a file outside the project, got {:?}", other),
    }
    assert_eq!(cache.len(), 0);
}

#[test]
fn a_file_found_twice_is_compiled_once_with_its_last_text() {
    let files = vec![
        file("/site/src/a.js", "export default 1;"),
        file("/site/src/b.js", ""),
        file("/site/src/a.js", "export default 2;"),
    ];
    let mut cache = cache::init();
    let modules =
        compile_src_files(b"/site", &files, b"/out", &ImportMap::new(), &mut cache, b"/tmp")
            .unwrap();
    assert_eq!(modules.len(), 2);
    assert_eq!(modules[0].source_id, bytes("src/a.js"));
    assert_eq!(modules[0].browser.code, bytes("export default 2;"));
    assert_eq!(modules[1].source_id, bytes("src/b.js"));
}

#[test]
fn no_files_give_no_artifacts() {
    let mut cache = cache::init();
    let modules =
        compile_src_files(b"/site", &Vec::new(), b"/out", &ImportMap::new(), &mut cache, b"/tmp")
            .unwrap();
    assert!(modules.is_empty());
}

#[test]
fn the_same_files_give_the_same_artifacts() {
    let files = vec![
        file("/site/src/a.js", "import b from './b';\nimport _ from 'lodash';"),
        file("/site/src/b.js", "export default 1;"),
    ];
    let run = || {
        let mut cache = cache::init();
        compile_src_files(b"/site", &files, b"/out", &lodash_map(), &mut cache, b"/tmp")
            .unwrap()
            .into_iter()
            .map(|m| (m.browser.path, m.browser.code, m.server.path, m.server.code))
            .collect::<Vec<_>>()
    };
    assert_eq!(run(), run());
}

#[test]
fn the_order_of_discovery_does_not_change_the_artifacts() {
    let a = || file("/site/src/a.js", "import b from './lib/b';\nimport _ from 'lodash';");
    let b = || file("/site/src/lib/b.js", "import c from '../c.js';");
    let c = || file("/site/src/c.js", "export default 1;");
    let run = |files: Vec<SourceFile>| {
        let mut cache = cache::init();
        let mut got = compile_src_files(b"/site", &files, b"/out", &lodash_map(), &mut cache, b"/tmp")
            .unwrap()
            .into_iter()
            .map(|m| (m.source_id, m.browser.path, m.browser.code, m.server.path, m.server.code))
            .collect::<Vec<_>>();
        got.sort();
        got
    };
    let first = run(vec![a(), b(), c()]);
    assert_eq!(first.len(), 3);
    assert_eq!(first, run(vec![c(), b(), a()]));
    assert_eq!(first, run(vec![b(), a(), c()]));
    assert_eq!(first[0].2, bytes("import b from './lib/b.js';\nimport _ from '/web_modules/lodash.js';"));
}

#[test]
fn a_failure_shows_in_any_order_of_discovery() {
    let good = || file("/site/src/a.js", "export default 1;");
    let bad = || file("/site/src/b.js", "import x from 'nowhere';");
    for files in [vec![good(), bad()], vec![bad(), good()]] {
        let mut cache = cache::init();
        let r = compile_src_files(b"/site", &files, b"/out", &ImportMap::new(), &mut cache, b"/tmp");
        assert!(matches!(r, Err(CompileFilesError::Compile(_))));
    }
}

#[test]
fn a_module_that_the_parser_rejects_fails_the_whole_pass() {
    let broken = SourceFile {
        path: bytes("/site/src/a.js"),
        content: bytes("}"),
        parsed: Err(ParseError { fault: Fault::Syntax, at: 0 }),
    };
    for files in [
        vec![file("/site/src/good.js", "export default 1;"), broken_copy(&broken)],
        vec![broken_copy(&broken), file("/site/src/good.js", "export default 1;")],
        vec![broken_copy(&broken)],
    ] {
        let mut cache = cache::init();
        let r = compile_src_files(b"/site", &files, b"/out", &ImportMap::new(), &mut cache, b"/tmp");
        match r {
            Err(CompileFilesError::Compile(CompileError::Parse { module, fault, at })) => {
                assert_eq!(module, bytes("src/a.js"));
                assert_eq!(fault, Fault::Syntax);
                assert_eq!(at, 0);
            }
            other => panic!("expected a parse error, got {:?}", other),
        }
    }
}

fn broken_copy(f: &SourceFile) -> SourceFile {
    SourceFile { path: f.path.clone(), content: f.content.clone(), parsed: f.parsed.clone() }
}

#[test]
fn the_verdict_is_kept_with_the_registered_source() {
    let files = vec![file("/site/src/a.js", "import x from './b';"), file("/site/src/b.js", "")];
    let mut cache = cache::init();
    compile_src_files(b"/site", &files, b"/out", &ImportMap::new(), &mut cache, b"/tmp").unwrap();
    let record = cache.get_source(b"src/a.js").unwrap();
    assert_eq!(record.parsed, scan(b"import x from './b';"));
}

#[test]
fn a_module_that_the_reader_rejects_fails_the_whole_pass() {
    let files = vec![file("in/src/a.js", "}"), file("in/src/b.js", "export default 1;")];
    let mut cache = cache::init();
    let r = compile_src_files(b"in", &files, b"out", &ImportMap::new(), &mut cache, b"in/.tmp");
    match r {
        Err(CompileFilesError::Compile(CompileError::Parse { module, fault, at })) => {
            assert_eq!(module, bytes("src/a.js"));
            assert_eq!(fault, Fault::UnbalancedBracket);
            assert_eq!(at, 0);
        }
        other => panic!("expected a parse error, got {:?}", other),
    }
}
