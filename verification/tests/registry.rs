use toastnapi::bytemap::ByteMap;
use toastnapi::cache;
use toastnapi::import_map::ImportMap;
use toastnapi::scan::{scan, Fault, ParseError};
use toastnapi::sources::{Source, SourceKind};

fn bytes(s: &str) -> Vec<u8> {
    s.as_bytes().to_vec()
}

fn raw(text: &str) -> Source {
    Source { source: bytes(text), kind: SourceKind::Raw, parsed: scan(text.as_bytes()) }
}

#[test]
fn a_new_map_is_empty() {
    let m: ByteMap<u32> = ByteMap::new();
    assert_eq!(m.len(), 0);
    assert_eq!(m.get(b"a"), None);
    assert!(!m.contains_key(b"a"));
    assert_eq!(m.position(b"a"), None);
}

#[test]
fn keys_keep_the_order_of_arrival() {
    let mut m: ByteMap<u32> = ByteMap::new();
    m.insert(bytes("b"), 1);
    m.insert(bytes("a"), 2);
    m.insert(bytes("c"), 3);
    assert_eq!(m.len(), 3);
    assert_eq!(m.key_at(0), &bytes("b"));
    assert_eq!(m.key_at(1), &bytes("a"));
    assert_eq!(m.key_at(2), &bytes("c"));
    assert_eq!(m.value_at(1), &2);
    assert_eq!(m.position(b"c"), Some(2));
    assert_eq!(m.get(b"a"), Some(&2));
}

#[test]
fn writing_a_known_key_replaces_its_value_in_place() {
    let mut m: ByteMap<u32> = ByteMap::new();
    m.insert(bytes("a"), 1);
    m.insert(bytes("b"), 2);
    m.insert(bytes("a"), 3);
    assert_eq!(m.len(), 2);
    assert_eq!(m.get(b"a"), Some(&3));
    assert_eq!(m.position(b"a"), Some(0));
    assert_eq!(m.get(b"b"), Some(&2));
}

#[test]
fn the_cache_starts_empty() {
    let c = cache::init();
    assert_eq!(c.len(), 0);
    assert!(!c.contains(b"src/a.js"));
    assert!(c.get_source(b"src/a.js").is_none());
}

#[test]
fn a_source_is_stored_and_read_back() {
    let mut c = cache::init();
    c.set_source(b"src/a.js", raw("let a;"));
    assert!(c.contains(b"src/a.js"));
    assert_eq!(c.len(), 1);
    let got = c.get_source(b"src/a.js").unwrap();
    assert_eq!(got.source, bytes("let a;"));
    assert!(matches!(got.kind, SourceKind::Raw));
    assert_eq!(c.id_at(0), &bytes("src/a.js"));
}

#[test]
fn storing_again_replaces_the_record_whole() {
    let mut c = cache::init();
    c.set_source(b"src/a.js", raw("old"));
    c.set_source(b"src/b.js", raw("b"));
    c.set_source(
        b"src/a.js",
        Source {
            source: bytes("new"),
            kind: SourceKind::File { relative_path: bytes("/p/src/a.js") },
            parsed: Err(ParseError { fault: Fault::Syntax, at: 1 }),
        },
    );
    assert_eq!(c.len(), 2);
    let got = c.get_source(b"src/a.js").unwrap();
    assert_eq!(got.source, bytes("new"));
    assert_eq!(got.parsed, Err(ParseError { fault: Fault::Syntax, at: 1 }));
    match &got.kind {
        SourceKind::File { relative_path } => assert_eq!(relative_path, &bytes("/p/src/a.js")),
        SourceKind::Raw => panic!("the record was not replaced"),
    }
    assert_eq!(c.id_at(0), &bytes("src/a.js"));
    assert_eq!(c.id_at(1), &bytes("src/b.js"));
}

#[test]
fn registering_derives_the_identifier_from_the_path() {
    let mut c = cache::init();
    let id = c.register(
        b"/proj",
        bytes("/proj/src/pages/index.js"),
        bytes("export default 1;"),
        scan(b"export default 1;"),
    );
    assert_eq!(id, Some(bytes("src/pages/index.js")));
    let got = c.get_source(b"src/pages/index.js").unwrap();
    assert_eq!(got.source, bytes("export default 1;"));
    assert_eq!(got.parsed, Ok(Vec::new()));
    match &got.kind {
        SourceKind::File { relative_path } => {
            assert_eq!(relative_path, &bytes("/proj/src/pages/index.js"))
        }
        SourceKind::Raw => panic!("a registered file is file-backed"),
    }
}

#[test]
fn registering_twice_is_idempotent() {
    let mut c = cache::init();
    let first = c.register(b"/proj", bytes("/proj/src/a.js"), bytes("one"), Ok(Vec::new()));
    let second = c.register(b"/proj", bytes("/proj/src/a.js"), bytes("two"), Ok(Vec::new()));
    assert_eq!(first, second);
    assert_eq!(c.len(), 1);
    assert_eq!(c.get_source(b"src/a.js").unwrap().source, bytes("two"));
}

#[test]
fn registering_outside_the_project_changes_nothing() {
    let mut c = cache::init();
    assert_eq!(c.register(b"/proj", bytes("/elsewhere/a.js"), bytes("x"), Ok(Vec::new())), None);
    assert_eq!(c.len(), 0);
}

#[test]
fn the_import_map_maps_specifiers_to_targets() {
    let mut m = ImportMap::new();
    assert_eq!(m.len(), 0);
    m.insert(b"lodash", b"/web_modules/lodash.js");
    m.insert(b"react", b"/web_modules/react.js");
    assert_eq!(m.len(), 2);
    assert_eq!(m.get(b"lodash"), Some(&bytes("/web_modules/lodash.js")));
    assert_eq!(m.get(b"react"), Some(&bytes("/web_modules/react.js")));
    assert_eq!(m.get(b"vue"), None);
}

#[test]
fn the_last_entry_of_a_specifier_holds() {
    let entries = vec![
        (bytes("a"), bytes("/1.js")),
        (bytes("b"), bytes("/2.js")),
        (bytes("a"), bytes("/3.js")),
    ];
    let m = ImportMap::from_entries(&entries);
    assert_eq!(m.len(), 2);
    assert_eq!(m.get(b"a"), Some(&bytes("/3.js")));
    assert_eq!(m.get(b"b"), Some(&bytes("/2.js")));
    assert_eq!(ImportMap::from_entries(&Vec::new()).len(), 0);
}
