use toastnapi::compile::CompileError;
use toastnapi::diagnostics::decimal;
use toastnapi::orchestrator::BuildError;
use toastnapi::output::CompileFilesError;
use toastnapi::scan::Fault;

fn bytes(s: &str) -> Vec<u8> {
    s.as_bytes().to_vec()
}

fn text(b: Vec<u8>) -> String {
    String::from_utf8(b).unwrap()
}

#[test]
fn numbers_are_written_in_decimal() {
    assert_eq!(decimal(0), bytes("0"));
    assert_eq!(decimal(7), bytes("7"));
    assert_eq!(decimal(10), bytes("10"));
    assert_eq!(decimal(34), bytes("34"));
    assert_eq!(decimal(1090), bytes("1090"));
    assert_eq!(decimal(usize::MAX), bytes(&usize::MAX.to_string()));
}

#[test]
fn an_unresolved_dependency_names_specifier_and_module() {
    let e = CompileError::Unresolved { module: bytes("src/app.js"), specifier: bytes("react") };
    assert_eq!(text(e.message()), "unresolved specifier `react` in module `src/app.js`");
}

#[test]
fn a_parse_error_names_fault_offset_and_module() {
    let e = CompileError::Parse {
        module: bytes("src/a.js"),
        fault: Fault::UnterminatedString,
        at: 34,
    };
    assert_eq!(text(e.message()), "unterminated string literal at byte 34 in module `src/a.js`");
    let e = CompileError::Parse {
        module: bytes("m.js"),
        fault: Fault::UnterminatedComment,
        at: 0,
    };
    assert_eq!(text(e.message()), "unterminated block comment at byte 0 in module `m.js`");
    let e = CompileError::Parse {
        module: bytes("m.js"),
        fault: Fault::UnterminatedTemplate,
        at: 120,
    };
    assert_eq!(text(e.message()), "unterminated template literal at byte 120 in module `m.js`");
}

#[test]
fn a_fault_of_the_parser_is_named() {
    let e = CompileError::Parse { module: bytes("m.js"), fault: Fault::Syntax, at: 3 };
    assert_eq!(text(e.message()), "syntax error at byte 3 in module `m.js`");
}

#[test]
fn misplaced_specifiers_name_the_module() {
    let e = CompileError::Misplaced { module: bytes("m.js") };
    assert_eq!(text(e.message()), "the specifiers do not fit the text of module `m.js`");
}

#[test]
fn an_unknown_source_is_named() {
    let e = CompileError::UnknownSource { module: bytes("src/none.js") };
    assert_eq!(text(e.message()), "no source is registered as `src/none.js`");
}

#[test]
fn source_errors_are_described() {
    let e = CompileFilesError::OutsideProject { path: bytes("/other/a.js") };
    assert_eq!(text(e.message()), "`/other/a.js` does not lie in the project");
    let e = CompileFilesError::Compile(CompileError::Unresolved {
        module: bytes("a.js"),
        specifier: bytes("x"),
    });
    assert_eq!(text(e.message()), "unresolved specifier `x` in module `a.js`");
}

#[test]
fn build_errors_name_the_path() {
    let path = || bytes("/site/p");
    assert_eq!(
        text(BuildError::CreateDir { path: path() }.message()),
        "failed to create the directory `/site/p`"
    );
    assert_eq!(
        text(BuildError::ReadImportMap { path: path() }.message()),
        "failed to read the import map from `/site/p`"
    );
    assert_eq!(
        text(BuildError::ParseImportMap { path: path(), content: bytes("{oops") }.message()),
        "failed to parse the import map at `/site/p` from the content `{oops`"
    );
    assert_eq!(
        text(BuildError::ReadSource { path: path() }.message()),
        "failed to read the source `/site/p`"
    );
    assert_eq!(
        text(BuildError::WriteArtifact { path: path() }.message()),
        "failed to write the artifact `/site/p`"
    );
    assert_eq!(text(BuildError::UnexpectedEvent.message()), "an event was reported out of turn");
    let e = BuildError::Sources(CompileFilesError::Compile(CompileError::Unresolved {
        module: bytes("src/app.js"),
        specifier: bytes("react"),
    }));
    assert_eq!(text(e.message()), "unresolved specifier `react` in module `src/app.js`");
}

#[test]
fn every_fault_of_the_reader_has_its_name() {
    let message = |fault| {
        text(CompileError::Parse { module: bytes("m.js"), fault, at: 2 }.message())
    };
    assert_eq!(message(Fault::UnbalancedBracket), "unbalanced bracket at byte 2 in module `m.js`");
    assert_eq!(message(Fault::UnclosedBracket), "unclosed bracket at byte 2 in module `m.js`");
    assert_eq!(message(Fault::MalformedImport), "malformed import at byte 2 in module `m.js`");
}
