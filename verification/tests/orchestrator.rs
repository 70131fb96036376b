use toastnapi::barrier::{Event, SetDataForSlug};
use toastnapi::compile::CompileError;
use toastnapi::orchestrator::{
    import_map_path, slugs_or_empty, source_dir, staging_dir, Action, Build, BuildError,
    BuildEvent, Stage,
};
use toastnapi::output::{CompileFilesError, SourceFile};
use toastnapi::path::resolve_relative;
use toastnapi::scan::{scan, Fault, ParseError};

fn bytes(s: &str) -> Vec<u8> {
    s.as_bytes().to_vec()
}

fn file(path: &str, content: &str) -> SourceFile {
    SourceFile { path: bytes(path), content: bytes(content), parsed: scan(content.as_bytes()) }
}

fn register(slug: &str) -> BuildEvent {
    BuildEvent::Route(Event::RegisterRouteData(SetDataForSlug {
        slug: slug.to_string(),
        data: None,
    }))
}

fn lodash_entries() -> Vec<(Vec<u8>, Vec<u8>)> {
    vec![(bytes("lodash"), bytes("/web_modules/lodash.js"))]
}

fn build_until_draining() -> Build {
    let (mut build, first) = Build::new(bytes("/site"), bytes("/site/public"));
    assert!(matches!(first, Action::CreateDir(p) if p == bytes("/site/public")));
    assert!(matches!(
        build.step(BuildEvent::DirectoryReady),
        Action::ReadImportMap(p) if p == bytes("/site/public/web_modules/import-map.json")
    ));
    assert!(matches!(
        build.step(BuildEvent::ImportMapRead(lodash_entries())),
        Action::CreateDir(p) if p == bytes("/site/.tmp")
    ));
    assert!(matches!(build.step(BuildEvent::DirectoryReady), Action::AwaitEvent));
    assert_eq!(build.stage(), Stage::Draining);
    build
}

#[test]
fn well_known_places_lie_under_the_given_directories() {
    assert_eq!(import_map_path(b"public"), bytes("public/web_modules/import-map.json"));
    assert_eq!(import_map_path(b"public/"), bytes("public/web_modules/import-map.json"));
    assert_eq!(staging_dir(b"/site"), bytes("/site/.tmp"));
    assert_eq!(source_dir(b"/site"), bytes("/site/src"));
}

#[test]
fn a_build_runs_through_its_steps() {
    let mut build = build_until_draining();
    assert!(matches!(build.step(register("a")), Action::AwaitEvent));
    assert!(matches!(build.step(register("b")), Action::AwaitEvent));
    assert!(matches!(build.step(register("c")), Action::AwaitEvent));
    assert!(matches!(
        build.step(BuildEvent::Route(Event::End)),
        Action::Discover(p) if p == bytes("/site/src")
    ));
    assert_eq!(build.stage(), Stage::Discovering);
    let files = vec![
        file("/site/src/index.js", "import _ from 'lodash';\nimport u from './util';\n"),
        file("/site/src/util.js", "export default 1;\n"),
        file("/site/src/notes.txt", "not a module"),
    ];
    match build.step(BuildEvent::Discovered(files)) {
        Action::Write(modules) => {
            assert_eq!(modules.len(), 2);
            assert_eq!(modules[0].browser.path, bytes("/site/public/src/index.js"));
            assert_eq!(
                modules[0].browser.code,
                bytes("import _ from '/web_modules/lodash.js';\nimport u from './util.js';\n")
            );
            assert_eq!(modules[0].server.path, bytes("/site/.tmp/src/index.js"));
            assert_eq!(
                modules[0].server.code,
                bytes("import _ from 'lodash';\nimport u from './util.js';\n")
            );
            assert_eq!(modules[1].browser.path, bytes("/site/public/src/util.js"));
            assert_eq!(modules[1].server.path, bytes("/site/.tmp/src/util.js"));
        }
        other => panic!("expected artifacts to write, got {:?}", other),
    }
    assert_eq!(build.stage(), Stage::Writing);
    match build.step(BuildEvent::Written) {
        Action::Finish(slugs) => {
            assert_eq!(slugs, vec!["a".to_string(), "b".to_string(), "c".to_string()])
        }
        other => panic!("expected the slugs, got {:?}", other),
    }
    assert_eq!(build.stage(), Stage::Finished);
    assert!(matches!(build.step(BuildEvent::Written), Action::Idle));
    assert_eq!(build.stage(), Stage::Finished);
}

#[test]
fn a_build_without_routes_still_compiles() {
    let mut build = build_until_draining();
    assert!(matches!(build.step(BuildEvent::Route(Event::End)), Action::Discover(_)));
    match build.step(BuildEvent::Discovered(vec![file("/site/src/a.js", "export default 1;")])) {
        Action::Write(modules) => assert_eq!(modules.len(), 1),
        other => panic!("expected artifacts to write, got {:?}", other),
    }
    match build.step(BuildEvent::Written) {
        Action::Finish(slugs) => assert!(slugs.is_empty()),
        other => panic!("expected the slugs, got {:?}", other),
    }
}

#[test]
fn a_missing_import_map_aborts_before_the_staging_directory() {
    let (mut build, _) = Build::new(bytes("/site"), bytes("/site/public"));
    build.step(BuildEvent::DirectoryReady);
    match build.step(BuildEvent::ImportMapUnreadable) {
        Action::Abort(BuildError::ReadImportMap { path }) => {
            assert_eq!(path, bytes("/site/public/web_modules/import-map.json"))
        }
        other => panic!("expected an abort, got {:?}", other),
    }
    assert_eq!(build.stage(), Stage::Failed);
    assert!(matches!(build.step(BuildEvent::DirectoryReady), Action::Idle));
    assert!(matches!(build.step(BuildEvent::Route(Event::End)), Action::Idle));
    assert!(matches!(
        build.step(BuildEvent::Discovered(vec![file("/site/src/a.js", "")])),
        Action::Idle
    ));
    assert_eq!(build.stage(), Stage::Failed);
}

#[test]
fn a_malformed_import_map_aborts() {
    let (mut build, _) = Build::new(bytes("in"), bytes("out"));
    build.step(BuildEvent::DirectoryReady);
    let error = match build.step(BuildEvent::ImportMapMalformed(bytes("not json"))) {
        Action::Abort(error) => error,
        other => panic!("expected an abort, got {:?}", other),
    };
    match &error {
        BuildError::ParseImportMap { path, content } => {
            assert_eq!(path, &bytes("out/web_modules/import-map.json"));
            assert_eq!(content, &bytes("not json"));
        }
        other => panic!("expected a malformed import map, got {:?}", other),
    }
    assert_eq!(
        String::from_utf8(error.message()).unwrap(),
        "failed to parse the import map at `out/web_modules/import-map.json` from the content `not json`"
    );
    assert_eq!(build.stage(), Stage::Failed);
    assert!(matches!(build.step(BuildEvent::DirectoryReady), Action::Idle));
    assert!(matches!(
        build.step(BuildEvent::Discovered(vec![file("in/src/a.js", "")])),
        Action::Idle
    ));
}

#[test]
fn a_directory_that_cannot_be_created_aborts() {
    let (mut build, _) = Build::new(bytes("in"), bytes("out"));
    assert!(matches!(
        build.step(BuildEvent::DirectoryFailed),
        Action::Abort(BuildError::CreateDir { path }) if path == bytes("out")
    ));
    let (mut build, _) = Build::new(bytes("in"), bytes("out"));
    build.step(BuildEvent::DirectoryReady);
    build.step(BuildEvent::ImportMapRead(Vec::new()));
    assert!(matches!(
        build.step(BuildEvent::DirectoryFailed),
        Action::Abort(BuildError::CreateDir { path }) if path == bytes("in/.tmp")
    ));
    assert_eq!(build.stage(), Stage::Failed);
}

#[test]
fn an_unresolved_dependency_aborts_with_nothing_to_write() {
    let mut build = build_until_draining();
    build.step(register("a"));
    build.step(BuildEvent::Route(Event::End));
    let files = vec![
        file("/site/src/ok.js", "export default 1;"),
        file("/site/src/app.js", "import React from 'react';"),
    ];
    match build.step(BuildEvent::Discovered(files)) {
        Action::Abort(BuildError::Sources(CompileFilesError::Compile(
            CompileError::Unresolved { module, specifier },
        ))) => {
            assert_eq!(module, bytes("src/app.js"));
            assert_eq!(specifier, bytes("react"));
        }
        other => panic!("expected an abort, got {:?}", other),
    }
    assert_eq!(build.stage(), Stage::Failed);
    assert!(matches!(build.step(BuildEvent::Written), Action::Idle));
    let result = slugs_or_empty(Err(BuildError::UnexpectedEvent));
    assert!(result.is_empty());
}

#[test]
fn an_unreadable_source_aborts_with_its_path() {
    let mut build = build_until_draining();
    build.step(BuildEvent::Route(Event::End));
    assert!(matches!(
        build.step(BuildEvent::SourceUnreadable(bytes("/site/src/gone.js"))),
        Action::Abort(BuildError::ReadSource { path }) if path == bytes("/site/src/gone.js")
    ));
}

#[test]
fn a_failed_write_aborts_with_its_path() {
    let mut build = build_until_draining();
    build.step(BuildEvent::Route(Event::End));
    build.step(BuildEvent::Discovered(Vec::new()));
    assert_eq!(build.stage(), Stage::Writing);
    assert!(matches!(
        build.step(BuildEvent::WriteFailed(bytes("/site/public/src/a.js"))),
        Action::Abort(BuildError::WriteArtifact { path }) if path == bytes("/site/public/src/a.js")
    ));
    assert_eq!(build.stage(), Stage::Failed);
}

#[test]
fn an_event_out_of_turn_aborts() {
    let (mut build, _) = Build::new(bytes("in"), bytes("out"));
    assert!(matches!(
        build.step(BuildEvent::Written),
        Action::Abort(BuildError::UnexpectedEvent)
    ));
    assert_eq!(build.stage(), Stage::Failed);
    let mut build = build_until_draining();
    assert!(matches!(
        build.step(BuildEvent::DirectoryReady),
        Action::Abort(BuildError::UnexpectedEvent)
    ));
    let (mut build, _) = Build::new(bytes("in"), bytes("out"));
    build.step(BuildEvent::DirectoryReady);
    assert!(matches!(
        build.step(BuildEvent::Route(Event::End)),
        Action::Abort(BuildError::UnexpectedEvent)
    ));
}

#[test]
fn events_after_end_do_not_reach_the_barrier() {
    let mut build = build_until_draining();
    build.step(register("a"));
    build.step(BuildEvent::Route(Event::End));
    assert!(matches!(
        build.step(register("late")),
        Action::Abort(BuildError::UnexpectedEvent)
    ));
}

#[test]
fn the_last_import_map_entry_of_a_specifier_is_used() {
    let (mut build, _) = Build::new(bytes("/site"), bytes("/out"));
    build.step(BuildEvent::DirectoryReady);
    build.step(BuildEvent::ImportMapRead(vec![
        (bytes("lodash"), bytes("/old.js")),
        (bytes("lodash"), bytes("/new.js")),
    ]));
    build.step(BuildEvent::DirectoryReady);
    build.step(BuildEvent::Route(Event::End));
    match build.step(BuildEvent::Discovered(vec![file("/site/src/a.js", "import 'lodash'")])) {
        Action::Write(modules) => assert_eq!(modules[0].browser.code, bytes("import '/new.js'")),
        other => panic!("expected artifacts to write, got {:?}", other),
    }
}

#[test]
fn a_finished_build_hands_out_its_slugs() {
    let slugs = vec!["a".to_string(), "b".to_string()];
    assert_eq!(slugs_or_empty(Ok(slugs.clone())), slugs);
    assert_eq!(
        slugs_or_empty(Err(BuildError::ReadImportMap { path: bytes("x") })),
        Vec::<String>::new()
    );
}

#[test]
fn building_twice_gives_the_same_tree() {
    let run = || {
        let mut build = build_until_draining();
        build.step(register("a"));
        build.step(BuildEvent::Route(Event::End));
        let files = vec![
            file("/site/src/index.js", "import _ from 'lodash';\nimport u from './util';\n"),
            file("/site/src/util.js", "export default 1;\n"),
        ];
        match build.step(BuildEvent::Discovered(files)) {
            Action::Write(modules) => modules
                .into_iter()
                .flat_map(|m| vec![(m.browser.path, m.browser.code), (m.server.path, m.server.code)])
                .collect::<Vec<_>>(),
            other => panic!("expected artifacts to write, got {:?}", other),
        }
    };
    assert_eq!(run(), run());
}

#[test]
fn links_between_artifacts_hold_in_both_trees() {
    let mut build = build_until_draining();
    build.step(BuildEvent::Route(Event::End));
    let files = vec![
        file("/site/src/pages/index.js", "import { u } from './util';\nimport h from '../header.js';\n"),
        file("/site/src/pages/util.js", "export const u = 1;\n"),
        file("/site/src/header.js", "export default 2;\n"),
    ];
    let modules = match build.step(BuildEvent::Discovered(files)) {
        Action::Write(modules) => modules,
        other => panic!("expected artifacts to write, got {:?}", other),
    };
    let index = &modules[0];
    let util = &modules[1];
    let header = &modules[2];
    let spans = scan(&index.browser.code).unwrap();
    let first = &index.browser.code[spans[0].start..spans[0].end];
    let second = &index.browser.code[spans[1].start..spans[1].end];
    assert_eq!(resolve_relative(&index.browser.path, first), Some(util.browser.path.clone()));
    assert_eq!(resolve_relative(&index.browser.path, second), Some(header.browser.path.clone()));
    let spans = scan(&index.server.code).unwrap();
    let first = &index.server.code[spans[0].start..spans[0].end];
    let second = &index.server.code[spans[1].start..spans[1].end];
    assert_eq!(resolve_relative(&index.server.path, first), Some(util.server.path.clone()));
    assert_eq!(resolve_relative(&index.server.path, second), Some(header.server.path.clone()));
}

#[test]
fn a_module_that_the_parser_rejects_aborts_with_nothing_to_write() {
    let mut build = build_until_draining();
    build.step(BuildEvent::Route(Event::End));
    let files = vec![
        file("/site/src/ok.js", "export default 1;"),
        SourceFile {
            path: bytes("/site/src/a.js"),
            content: bytes("}"),
            parsed: Err(ParseError { fault: Fault::Syntax, at: 0 }),
        },
    ];
    let error = match build.step(BuildEvent::Discovered(files)) {
        Action::Abort(error) => error,
        other => panic!("expected an abort, got {:?}", other),
    };
    assert_eq!(
        String::from_utf8(error.message()).unwrap(),
        "syntax error at byte 0 in module `src/a.js`"
    );
    assert_eq!(build.stage(), Stage::Failed);
    assert!(matches!(build.step(BuildEvent::Written), Action::Idle));
}
