use toastnapi::scan::{blank, copy_verdict, scan, word_byte, Fault, ParseError, Span};

fn spans(src: &str) -> Vec<Span> {
    scan(src.as_bytes()).unwrap()
}

fn span_of(src: &str, needle: &str) -> Span {
    let start = src.find(needle).unwrap();
    Span { start, end: start + needle.len() }
}

fn found(src: &str) -> Vec<String> {
    spans(src)
        .iter()
        .map(|s| String::from_utf8(src.as_bytes()[s.start..s.end].to_vec()).unwrap())
        .collect()
}

#[test]
fn static_import_is_found_at_its_offsets() {
    let src = "import {x} from \"lodash\";";
    assert_eq!(spans(src), vec![Span { start: 17, end: 23 }]);
}

#[test]
fn import_for_effect_is_found() {
    let src = "import \"./side.js\"";
    assert_eq!(spans(src), vec![Span { start: 8, end: 17 }]);
}

#[test]
fn dynamic_import_is_found() {
    let src = "const m = await import('./lazy.js')";
    assert_eq!(spans(src), vec![Span { start: 24, end: 33 }]);
    assert_eq!(found("import ( \"x\" )"), vec!["x"]);
}

#[test]
fn re_exports_are_found_in_order() {
    let src = "export { a } from './a.js';\nexport * from \"b\";\n";
    let b = src.rfind("\"b\"").unwrap() + 1;
    assert_eq!(spans(src), vec![span_of(src, "./a.js"), Span { start: b, end: b + 1 }]);
}

#[test]
fn a_module_without_imports_has_no_specifiers() {
    assert_eq!(spans(""), vec![]);
    assert_eq!(spans("let a = 1;\nconsole.log(a / 2);\n"), vec![]);
}

#[test]
fn other_string_literals_are_no_specifiers() {
    assert_eq!(found("const s = \"from\"; const t = 'import';"), Vec::<String>::new());
    assert_eq!(found("call(\"x\"); from(\"y\");"), Vec::<String>::new());
    assert_eq!(found("fromage \"x\"; $from 'y'; imports 'z'"), Vec::<String>::new());
}

#[test]
fn comments_are_passed_over() {
    assert_eq!(found("// import x from \"a\"\nlet y = 1;"), Vec::<String>::new());
    assert_eq!(found("/* import x from \"a\" */ let z;"), Vec::<String>::new());
    assert_eq!(found("import x from /* why */ \"a\""), vec!["a"]);
    assert_eq!(found("import x from // why\n 'a'"), vec!["a"]);
    assert_eq!(found("import /* a * b */ ( 'c' )"), vec!["c"]);
}

#[test]
fn text_inside_literals_is_not_read() {
    assert_eq!(found("const t = `from \"x\"`; import y from 'z'"), vec!["z"]);
    assert_eq!(found("const t = \"import 'x'\"; import y from 'z'"), vec!["z"]);
    assert_eq!(found("const t = `a\\`b`; import y from 'z'"), vec!["z"]);
}

#[test]
fn property_names_are_no_keywords() {
    assert_eq!(found("obj.import(\"x\")"), Vec::<String>::new());
    assert_eq!(found("Array.from \"x\""), Vec::<String>::new());
    assert_eq!(found("import.meta.url + \"x\""), Vec::<String>::new());
}

#[test]
fn an_escaped_quote_does_not_end_the_literal() {
    let src = "import x from \"a\\\"b\";";
    assert_eq!(found(src), vec!["a\\\"b"]);
    assert_eq!(found("import x from 'it\\'s'"), vec!["it\\'s"]);
}

#[test]
fn keywords_need_no_blank_before_the_literal() {
    assert_eq!(found("import x from\"y\";import'z'"), vec!["y", "z"]);
}

#[test]
fn several_specifiers_lie_in_order() {
    let src = "import a from 'a';\nimport b from \"./b.js\";\nconst c = import('c');\n";
    let got = spans(src);
    assert_eq!(got.len(), 3);
    assert!(got[0].end < got[1].start && got[1].end < got[2].start);
    assert_eq!(found(src), vec!["a", "./b.js", "c"]);
    for s in got {
        let before = src.as_bytes()[s.start - 1];
        assert_eq!(before, src.as_bytes()[s.end]);
        assert!(before == b'"' || before == b'\'');
    }
}

#[test]
fn an_empty_specifier_is_found() {
    assert_eq!(spans("import ''"), vec![Span { start: 8, end: 8 }]);
}

#[test]
fn unterminated_string_is_a_fault() {
    assert_eq!(
        scan(b"import x from \"abc"),
        Err(ParseError { fault: Fault::UnterminatedString, at: 14 })
    );
    assert_eq!(
        scan(b"let s = 'ab\ncd';"),
        Err(ParseError { fault: Fault::UnterminatedString, at: 8 })
    );
    assert_eq!(
        scan(b"let s = \"ab\\"),
        Err(ParseError { fault: Fault::UnterminatedString, at: 8 })
    );
}

#[test]
fn unterminated_comment_is_a_fault() {
    assert_eq!(
        scan(b"let a; /* never ends"),
        Err(ParseError { fault: Fault::UnterminatedComment, at: 7 })
    );
    assert_eq!(scan(b"/*/"), Err(ParseError { fault: Fault::UnterminatedComment, at: 0 }));
}

#[test]
fn unterminated_template_is_a_fault() {
    assert_eq!(
        scan(b"x = `abc"),
        Err(ParseError { fault: Fault::UnterminatedTemplate, at: 4 })
    );
}

#[test]
fn the_first_fault_is_reported() {
    assert_eq!(
        scan(b"import a from 'a'; /* open \n 'b"),
        Err(ParseError { fault: Fault::UnterminatedComment, at: 19 })
    );
}

#[test]
fn a_template_may_span_lines() {
    assert_eq!(found("const t = `a\nb`;\nimport x from 'y'"), vec!["y"]);
}

#[test]
fn a_line_comment_may_end_the_text() {
    assert_eq!(found("import x from 'y' // done"), vec!["y"]);
    assert_eq!(found("import x from 'y' /"), vec!["y"]);
}

#[test]
fn bytes_are_classified() {
    assert!(blank(b' ') && blank(b'\t') && blank(b'\n') && blank(b'\r'));
    assert!(!blank(b'a') && !blank(0));
    assert!(word_byte(b'a') && word_byte(b'Z') && word_byte(b'0') && word_byte(b'_'));
    assert!(word_byte(b'$') && word_byte(0xC3));
    assert!(!word_byte(b'.') && !word_byte(b'(') && !word_byte(b' ') && !word_byte(b'"'));
}

#[test]
fn quotes_in_a_regular_expression_begin_no_string() {
    assert_eq!(found("const re = /['\"]/;\nimport x from 'y'"), vec!["y"]);
    assert_eq!(found("s.replace(/\"/g, '');\nimport x from 'y'"), vec!["y"]);
    assert_eq!(found("if (/'/.test(s)) { import('y') }"), vec!["y"]);
    assert_eq!(found("const f = s => { return /\"/.test(s) };\nimport('y')"), vec!["y"]);
    assert_eq!(found("[/'/, /\"/].map(String); import('y')"), vec!["y"]);
}

#[test]
fn a_class_or_an_escape_hides_the_closing_slash() {
    assert_eq!(found("x = /[/\"]/; import('y')"), vec!["y"]);
    assert_eq!(found("x = /\\/\"/; import('y')"), vec!["y"]);
    assert_eq!(found("x = /[\\]/\"]/; import('y')"), vec!["y"]);
}

#[test]
fn a_slash_after_an_operand_divides() {
    assert_eq!(found("a = b / c; d = \"/\"; import('y')"), vec!["y"]);
    assert_eq!(found("a = f(b) / 2 + \"1/2\"; import('y')"), vec!["y"]);
    assert_eq!(found("a = b[0] / 2 + '/'; import('y')"), vec!["y"]);
    assert_eq!(found("a = 'x' / 2 + '/'; import('y')"), vec!["y"]);
    assert_eq!(found("a = o.in / 2 + '/'; import('y')"), vec!["y"]);
    assert_eq!(found("a = 1 / 2 / 3; import('y')"), vec!["y"]);
}

#[test]
fn a_slash_without_its_pair_on_the_line_is_a_single_byte() {
    assert_eq!(found("a = (1 +\n / 2);\nimport x from 'y'"), vec!["y"]);
    assert_eq!(found("a = /;\nimport x from 'y' /"), vec!["y"]);
}

#[test]
fn flags_follow_a_regular_expression() {
    assert_eq!(found("a = /b/g / 2 + '/'; import('y')"), vec!["y"]);
}

#[test]
fn a_verdict_is_copied() {
    let found = scan(b"import a from 'a'; import('b')");
    assert_eq!(copy_verdict(&found), found);
    assert_eq!(copy_verdict(&Ok(Vec::new())), Ok(Vec::new()));
    let fault = Err(ParseError { fault: Fault::Syntax, at: 9 });
    assert_eq!(copy_verdict(&fault), fault);
}

#[test]
fn a_closing_bracket_without_its_opening_one_is_a_fault() {
    assert_eq!(scan(b"}"), Err(ParseError { fault: Fault::UnbalancedBracket, at: 0 }));
    assert_eq!(scan(b"  )"), Err(ParseError { fault: Fault::UnbalancedBracket, at: 2 }));
    assert_eq!(scan(b"f(a]"), Err(ParseError { fault: Fault::UnbalancedBracket, at: 3 }));
    assert_eq!(scan(b"{ ( } )"), Err(ParseError { fault: Fault::UnbalancedBracket, at: 4 }));
    assert_eq!(scan(b"a = [1, 2]] ;"), Err(ParseError { fault: Fault::UnbalancedBracket, at: 10 }));
}

#[test]
fn a_bracket_that_is_not_closed_is_a_fault() {
    assert_eq!(scan(b"function f() {"), Err(ParseError { fault: Fault::UnclosedBracket, at: 13 }));
    assert_eq!(scan(b"f(a, [b"), Err(ParseError { fault: Fault::UnclosedBracket, at: 5 }));
    assert_eq!(scan(b"x = `a ${ b `"), Err(ParseError { fault: Fault::UnterminatedTemplate, at: 12 }));
    assert_eq!(scan(b"x = `a ${ b "), Err(ParseError { fault: Fault::UnclosedBracket, at: 7 }));
}

#[test]
fn balanced_brackets_are_no_fault() {
    assert_eq!(found("function f(a, [b, c]) { return { a: [b(c)] }; }"), Vec::<String>::new());
    assert_eq!(found("const s = '}'; const t = \")\"; /* ] */ // }\n"), Vec::<String>::new());
    assert_eq!(found("const re = /[(]/; const u = `)`;"), Vec::<String>::new());
    assert_eq!(found("a = b++ / (2 * (c / 3)); d = e-- / (f);"), Vec::<String>::new());
}

#[test]
fn a_malformed_import_is_a_fault() {
    assert_eq!(
        scan(b"import {x from lodash"),
        Err(ParseError { fault: Fault::MalformedImport, at: 21 })
    );
    assert_eq!(scan(b"import x 'y'"), Err(ParseError { fault: Fault::MalformedImport, at: 9 }));
    assert_eq!(scan(b"import x from y"), Err(ParseError { fault: Fault::MalformedImport, at: 14 }));
    assert_eq!(scan(b"import = 1"), Err(ParseError { fault: Fault::MalformedImport, at: 7 }));
    assert_eq!(scan(b"import { a; }"), Err(ParseError { fault: Fault::MalformedImport, at: 10 }));
    assert_eq!(scan(b"import a, * as b"), Err(ParseError { fault: Fault::MalformedImport, at: 16 }));
    assert_eq!(scan(b"import x from"), Err(ParseError { fault: Fault::MalformedImport, at: 13 }));
    assert_eq!(scan(b"import"), Err(ParseError { fault: Fault::MalformedImport, at: 6 }));
    assert_eq!(scan(b"import x from ;"), Err(ParseError { fault: Fault::MalformedImport, at: 14 }));
    assert_eq!(scan(b"import {a {b}} from 'x'"), Err(ParseError { fault: Fault::MalformedImport, at: 10 }));
}

#[test]
fn every_shape_of_import_is_read() {
    assert_eq!(found("import a from 'a'"), vec!["a"]);
    assert_eq!(found("import * as ns from 'a'"), vec!["a"]);
    assert_eq!(found("import a, * as ns from 'a'"), vec!["a"]);
    assert_eq!(found("import a, { b as c, d } from 'a'"), vec!["a"]);
    assert_eq!(found("import {} from 'a'"), vec!["a"]);
    assert_eq!(found("import { from } from 'a'"), vec!["a"]);
    assert_eq!(found("import { a as from } from 'a'"), vec!["a"]);
    assert_eq!(found("import from from 'a'"), vec!["a"]);
    assert_eq!(found("import /* c */ a // d\n from 'a'"), vec!["a"]);
    assert_eq!(found("import 'a'; import(\"b\"); import.meta.url;"), vec!["a", "b"]);
    assert_eq!(found("const o = { import: 1, from: 'x' }; o.import('y');"), Vec::<String>::new());
    assert_eq!(found("export { a, b as c } from 'a'; export * as d from \"b\";"), vec!["a", "b"]);
    assert_eq!(found("const m = await import(name); import(`./${name}.js`)"), Vec::<String>::new());
}

#[test]
fn script_in_a_template_is_read_as_script() {
    assert_eq!(found("const t = `a ${ b ? `c` : 'd' } e`; import x from 'y'"), vec!["y"]);
    assert_eq!(found("const t = `${ \"`\" }`; import x from 'y'"), vec!["y"]);
    assert_eq!(found("const t = `${ { a: [1] }.a } $ { \\${`; import x from 'y'"), vec!["y"]);
    assert_eq!(found("const t = `${ await import('lazy') }`;"), vec!["lazy"]);
    assert_eq!(found("const t = `a${b}c${`d${e}f`}g`; import('y')"), vec!["y"]);
}
