//! The dual-target compiler: one module text, two variants.
//!
//! The compiler does not parse. It is handed the text of a module and what
//! a parser said of it, a [`Verdict`]: the places of the module's
//! specifiers, or a fault. A text with a fault has no variant.
//!
//! Both variants are the module with some of its specifiers rewritten; every
//! byte outside the specifiers is kept. For the browser every specifier
//! becomes a concrete location: a relative specifier that names a module of
//! the project is written with its extension, so that it names the module's
//! artifact in the mirrored output tree; any other specifier is looked up in
//! the import map; a bare specifier that the map does not hold is an
//! unresolved dependency. For the server a relative specifier gets its
//! extension and a bare specifier is left alone: the import map plays no
//! part.
//!
//! A rewritten specifier is written between the quotes of the literal that
//! it replaces. Text that comes from the module is written as it stands; a
//! target that comes from the import map is escaped, so that it cannot end
//! the literal early.

use vstd::prelude::*;
use crate::cache::Cache;
use crate::import_map::ImportMap;
use crate::path::{
    ensure_extension,
    is_relative,
    lemma_relative_link_survives_placement,
    placed,
    relative,
    resolve_relative,
    resolved,
    with_extension,
};
use crate::scan::{
    fits,
    in_order,
    literal_end,
    quoted,
    span_views,
    verdict_view,
    Fault,
    Span,
    Verdict,
    VerdictView,
    APOSTROPHE,
    BACKSLASH,
    CARRIAGE_RETURN,
    NEWLINE,
    QUOTE,
};
use crate::text::{append, to_vec};

verus! {

/// The runtime that a variant is compiled for, with what its rewriting
/// rules consult.
pub enum Target<'a> {
    /// A browser: the module's own identifier, the registered sources, and
    /// the import map.
    Browser { module: &'a [u8], cache: &'a Cache, import_map: &'a ImportMap },
    /// A server-side runtime.
    Server,
}

/// The model of a [`Target`]. Of the registered sources only the set of
/// their identifiers matters.
pub enum TargetView {
    Browser { module: Seq<u8>, modules: Set<Seq<u8>>, imports: Map<Seq<u8>, Seq<u8>> },
    Server,
}

/// Why a module could not be compiled.
#[derive(Debug)]
pub enum CompileError {
    /// The text of `module` cannot be read: `fault` at offset `at`.
    Parse { module: Vec<u8>, fault: Fault, at: usize },
    /// `module` imports the bare `specifier`, which the import map lacks.
    Unresolved { module: Vec<u8>, specifier: Vec<u8> },
    /// No source is registered under `module`.
    UnknownSource { module: Vec<u8> },
    /// The places that the parser gave for the specifiers of `module` do
    /// not fit its text.
    Misplaced { module: Vec<u8> },
}

/// The model of a [`CompileError`].
pub enum CompileErrorView {
    Parse { module: Seq<u8>, fault: Fault, at: int },
    Unresolved { module: Seq<u8>, specifier: Seq<u8> },
    UnknownSource { module: Seq<u8> },
    Misplaced { module: Seq<u8> },
}

impl View for CompileError {
    type V = CompileErrorView;

    open spec fn view(&self) -> CompileErrorView {
        match self {
            CompileError::Parse { module, fault, at } => CompileErrorView::Parse {
                module: module@,
                fault: *fault,
                at: *at as int,
            },
            CompileError::Unresolved { module, specifier } => CompileErrorView::Unresolved {
                module: module@,
                specifier: specifier@,
            },
            CompileError::UnknownSource { module } => CompileErrorView::UnknownSource {
                module: module@,
            },
            CompileError::Misplaced { module } => CompileErrorView::Misplaced { module: module@ },
        }
    }
}

/// The model of what a compilation returns.
pub open spec fn outcome_view(r: Result<Vec<u8>, CompileError>) -> Result<
    Seq<u8>,
    CompileErrorView,
> {
    match r {
        Ok(code) => Ok(code@),
        Err(e) => Err(e@),
    }
}

/// The module that the relative `specifier` names when written in `module`,
/// its extension made explicit.
pub open spec fn link_target(module: Seq<u8>, specifier: Seq<u8>) -> Option<Seq<u8>> {
    resolved(module, with_extension(specifier))
}

/// Whether `specifier`, written in `module`, is a relative path to one of
/// `modules`.
pub open spec fn links_to_module(
    module: Seq<u8>,
    specifier: Seq<u8>,
    modules: Set<Seq<u8>>,
) -> bool {
    &&& relative(specifier)
    &&& link_target(module, specifier) matches Some(t)
    &&& modules.contains(t)
}

/// The bytes that stand for `b` in a string literal between `quote`s: the
/// quote and the backslash get a backslash before them, a line feed is
/// written `\n` and a carriage return `\r`.
pub open spec fn escaped_byte(b: u8, quote: u8) -> Seq<u8> {
    if b == quote || b == BACKSLASH {
        seq![BACKSLASH, b]
    } else if b == NEWLINE {
        seq![BACKSLASH, 110u8]
    } else if b == CARRIAGE_RETURN {
        seq![BACKSLASH, 114u8]
    } else {
        seq![b]
    }
}

/// The text that stands for `value` in a string literal between `quote`s.
pub open spec fn escaped(value: Seq<u8>, quote: u8) -> Seq<u8>
    decreases value.len(),
{
    if value.len() == 0 {
        Seq::<u8>::empty()
    } else {
        escaped_byte(value[0], quote) + escaped(value.skip(1), quote)
    }
}

/// What is written in place of `specifier`, which stands between `quote`s,
/// for the target, or `None` when the specifier is an unresolved
/// dependency.
pub open spec fn replacement(target: TargetView, specifier: Seq<u8>, quote: u8) -> Option<Seq<u8>> {
    match target {
        TargetView::Browser { module, modules, imports } => {
            if links_to_module(module, specifier, modules) {
                Some(with_extension(specifier))
            } else if imports.contains_key(specifier) {
                Some(escaped(imports[specifier], quote))
            } else if relative(specifier) {
                Some(specifier)
            } else {
                None
            }
        },
        TargetView::Server => {
            if relative(specifier) {
                Some(with_extension(specifier))
            } else {
                Some(specifier)
            }
        },
    }
}

/// The bytes of `s` that span `k` covers.
pub open spec fn content(s: Seq<u8>, spans: Seq<(int, int)>, k: int) -> Seq<u8> {
    s.subrange(spans[k].0, spans[k].1)
}

/// The quote that opens the literal of span `k`.
pub open spec fn quote_of(s: Seq<u8>, spans: Seq<(int, int)>, k: int) -> u8 {
    s[spans[k].0 - 1]
}

/// Where the text between span `k - 1` and span `k` begins.
pub open spec fn gap_start(spans: Seq<(int, int)>, k: int) -> int {
    if k <= 0 {
        0
    } else {
        spans[k - 1].1
    }
}

/// The least of the first `k` spans whose specifier is unresolved.
pub open spec fn first_unresolved(
    s: Seq<u8>,
    spans: Seq<(int, int)>,
    target: TargetView,
    k: int,
) -> Option<int>
    decreases k,
{
    if k <= 0 {
        None
    } else {
        match first_unresolved(s, spans, target, k - 1) {
            Some(j) => Some(j),
            None => if replacement(target, content(s, spans, k - 1), quote_of(s, spans, k - 1))
                is None {
                Some(k - 1)
            } else {
                None
            },
        }
    }
}

/// The output up to the end of span `k - 1`: for each span the text before
/// it, untouched, and then what its specifier is rewritten to.
pub open spec fn emitted(s: Seq<u8>, spans: Seq<(int, int)>, target: TargetView, k: int) -> Seq<
    u8,
>
    decreases k,
{
    if k <= 0 {
        Seq::<u8>::empty()
    } else {
        emitted(s, spans, target, k - 1) + s.subrange(gap_start(spans, k - 1), spans[k - 1].0)
            + replacement(target, content(s, spans, k - 1), quote_of(s, spans, k - 1)).unwrap()
    }
}

/// The text `s` with the specifiers at `spans` rewritten for the target, or
/// the first specifier that is unresolved.
pub open spec fn rewritten(s: Seq<u8>, spans: Seq<(int, int)>, target: TargetView) -> Result<
    Seq<u8>,
    Seq<u8>,
> {
    let n = spans.len() as int;
    match first_unresolved(s, spans, target, n) {
        Some(j) => Err(content(s, spans, j)),
        None => Ok(emitted(s, spans, target, n) + s.subrange(gap_start(spans, n), s.len() as int)),
    }
}

/// The variant for the target of the module `module` with text `s`, of
/// which the parser said `parsed`. A text with a fault has no variant, and
/// neither has a text that the places given for its specifiers do not fit.
pub open spec fn compiled(
    module: Seq<u8>,
    s: Seq<u8>,
    parsed: VerdictView,
    target: TargetView,
) -> Result<Seq<u8>, CompileErrorView> {
    match parsed {
        Err((fault, at)) => Err(CompileErrorView::Parse { module, fault, at }),
        Ok(spans) => if !fits(s, spans) {
            Err(CompileErrorView::Misplaced { module })
        } else {
            match rewritten(s, spans, target) {
                Ok(code) => Ok(code),
                Err(specifier) => Err(CompileErrorView::Unresolved { module, specifier }),
            }
        },
    }
}

/// The browser variant of the module `module` with text `s`, in a project
/// whose registered modules are `modules`.
pub open spec fn browser_js(
    module: Seq<u8>,
    s: Seq<u8>,
    parsed: VerdictView,
    modules: Set<Seq<u8>>,
    imports: Map<Seq<u8>, Seq<u8>>,
) -> Result<Seq<u8>, CompileErrorView> {
    compiled(module, s, parsed, TargetView::Browser { module, modules, imports })
}

/// The server variant of the module `module` with text `s`.
pub open spec fn server_js(module: Seq<u8>, s: Seq<u8>, parsed: VerdictView) -> Result<
    Seq<u8>,
    CompileErrorView,
> {
    compiled(module, s, parsed, TargetView::Server)
}

/// Whether the specifier at span `j` is a dependency that the browser
/// cannot resolve: it is bare and the import map lacks it.
pub open spec fn unresolved_at(
    s: Seq<u8>,
    spans: Seq<(int, int)>,
    imports: Map<Seq<u8>, Seq<u8>>,
    j: int,
) -> bool {
    !relative(content(s, spans, j)) && !imports.contains_key(content(s, spans, j))
}

proof fn lemma_first_unresolved_stays(
    s: Seq<u8>,
    spans: Seq<(int, int)>,
    target: TargetView,
    j: int,
    k: int,
)
    requires
        0 <= j < k,
        first_unresolved(s, spans, target, j) is None,
        replacement(target, content(s, spans, j), quote_of(s, spans, j)) is None,
    ensures
        first_unresolved(s, spans, target, k) == Some(j),
    decreases k,
{
    if k > j + 1 {
        lemma_first_unresolved_stays(s, spans, target, j, k - 1);
    }
}

proof fn lemma_first_unresolved_least(
    s: Seq<u8>,
    spans: Seq<(int, int)>,
    target: TargetView,
    k: int,
)
    ensures
        match first_unresolved(s, spans, target, k) {
            Some(j) => {
                &&& 0 <= j < k
                &&& replacement(target, content(s, spans, j), quote_of(s, spans, j)) is None
                &&& forall|i: int|
                    0 <= i < j ==> replacement(
                        target,
                        #[trigger] content(s, spans, i),
                        quote_of(s, spans, i),
                    ) is Some
            },
            None => forall|j: int|
                0 <= j < k ==> replacement(
                    target,
                    #[trigger] content(s, spans, j),
                    quote_of(s, spans, j),
                ) is Some,
        },
    decreases k,
{
    if k > 0 {
        lemma_first_unresolved_least(s, spans, target, k - 1);
    }
}

proof fn lemma_emitted_unchanged(s: Seq<u8>, spans: Seq<(int, int)>, target: TargetView, k: int)
    requires
        in_order(spans, s.len() as int),
        0 <= k <= spans.len(),
        forall|j: int|
            0 <= j < k ==> replacement(target, #[trigger] content(s, spans, j), quote_of(s, spans, j))
                == Some(content(s, spans, j)),
    ensures
        emitted(s, spans, target, k) == s.subrange(0, gap_start(spans, k)),
        0 <= gap_start(spans, k) <= s.len(),
    decreases k,
{
    if k > 0 {
        lemma_emitted_unchanged(s, spans, target, k - 1);
        let a = gap_start(spans, k - 1);
        let (b, c) = spans[k - 1];
        if k > 1 {
            assert(spans[k - 2].1 < spans[k - 1].0);
        }
        assert(replacement(target, content(s, spans, k - 1), quote_of(s, spans, k - 1)) == Some(
            content(s, spans, k - 1),
        ));
        assert(s.subrange(0, a) + s.subrange(a, b) + s.subrange(b, c) == s.subrange(0, c));
    }
}

/// Rewriting keeps what it does not touch: when each specifier of a text is
/// rewritten to itself, the output is the text.
pub proof fn lemma_rewritten_unchanged(s: Seq<u8>, spans: Seq<(int, int)>, target: TargetView)
    requires
        in_order(spans, s.len() as int),
        forall|j: int|
            0 <= j < spans.len() ==> replacement(
                target,
                #[trigger] content(s, spans, j),
                quote_of(s, spans, j),
            ) == Some(content(s, spans, j)),
    ensures
        rewritten(s, spans, target) == Ok::<Seq<u8>, Seq<u8>>(s),
{
    let n = spans.len() as int;
    lemma_emitted_unchanged(s, spans, target, n);
    lemma_first_unresolved_least(s, spans, target, n);
    let e = gap_start(spans, n);
    assert(s.subrange(0, e) + s.subrange(e, s.len() as int) == s);
}

/// A broken module has no variant: when the parser reports a fault in the
/// text of a module, both variants are the error that cites the module,
/// the fault and its place, whatever else the text holds.
pub proof fn lemma_fault_has_no_variant(
    module: Seq<u8>,
    s: Seq<u8>,
    fault: Fault,
    at: int,
    modules: Set<Seq<u8>>,
    imports: Map<Seq<u8>, Seq<u8>>,
)
    ensures
        browser_js(module, s, Err((fault, at)), modules, imports) == Err::<
            Seq<u8>,
            CompileErrorView,
        >(CompileErrorView::Parse { module, fault, at }),
        server_js(module, s, Err((fault, at))) == Err::<Seq<u8>, CompileErrorView>(
            CompileErrorView::Parse { module, fault, at },
        ),
{
}

/// The server leaves bare specifiers alone: the server variant of a module
/// whose specifiers are all bare is the module's text, byte for byte.
pub proof fn lemma_server_keeps_bare(module: Seq<u8>, s: Seq<u8>, spans: Seq<(int, int)>)
    requires
        fits(s, spans),
        forall|j: int| 0 <= j < spans.len() ==> !relative(#[trigger] content(s, spans, j)),
    ensures
        server_js(module, s, Ok(spans)) == Ok::<Seq<u8>, CompileErrorView>(s),
{
    lemma_rewritten_unchanged(s, spans, TargetView::Server);
}

/// An unresolved dependency stops the browser compilation: when a module
/// without a fault holds a bare specifier that the import map lacks, its
/// browser variant is the error that cites the module and the first such
/// specifier in the text.
pub proof fn lemma_unresolved_dependency(
    module: Seq<u8>,
    s: Seq<u8>,
    spans: Seq<(int, int)>,
    modules: Set<Seq<u8>>,
    imports: Map<Seq<u8>, Seq<u8>>,
    k: int,
)
    requires
        fits(s, spans),
        0 <= k < spans.len(),
        unresolved_at(s, spans, imports, k),
    ensures
        exists|j: int|
            {
                &&& 0 <= j <= k
                &&& #[trigger] unresolved_at(s, spans, imports, j)
                &&& forall|i: int| 0 <= i < j ==> !#[trigger] unresolved_at(s, spans, imports, i)
                &&& browser_js(module, s, Ok(spans), modules, imports) == Err::<
                    Seq<u8>,
                    CompileErrorView,
                >(CompileErrorView::Unresolved { module, specifier: content(s, spans, j) })
            },
{
    let target = TargetView::Browser { module, modules, imports };
    let n = spans.len() as int;
    lemma_first_unresolved_least(s, spans, target, n);
    assert(replacement(target, content(s, spans, k), quote_of(s, spans, k)) is None);
    let j = first_unresolved(s, spans, target, n)->Some_0;
    assert(unresolved_at(s, spans, imports, j));
    assert forall|i: int| 0 <= i < j implies !#[trigger] unresolved_at(s, spans, imports, i) by {
        assert(replacement(target, content(s, spans, i), quote_of(s, spans, i)) is Some);
    }
}

/// A module without a fault and without a bare specifier that the import
/// map lacks compiles for the browser.
pub proof fn lemma_browser_compiles(
    module: Seq<u8>,
    s: Seq<u8>,
    spans: Seq<(int, int)>,
    modules: Set<Seq<u8>>,
    imports: Map<Seq<u8>, Seq<u8>>,
)
    requires
        fits(s, spans),
        forall|j: int| 0 <= j < spans.len() ==> !#[trigger] unresolved_at(s, spans, imports, j),
    ensures
        browser_js(module, s, Ok(spans), modules, imports) is Ok,
{
    let target = TargetView::Browser { module, modules, imports };
    lemma_first_unresolved_least(s, spans, target, spans.len() as int);
    if let Some(j) = first_unresolved(s, spans, target, spans.len() as int) {
        assert(!unresolved_at(s, spans, imports, j));
    }
}

/// Relative linking: when a relative specifier of `module` names the
/// registered module `sibling`, the browser writes it so that, read in the
/// artifact of `module` under any output root, it names the artifact of
/// `sibling` under that root. The server writes it the same way, so the
/// same holds under the staging root.
pub proof fn lemma_relative_link_reaches_artifact(
    root: Seq<u8>,
    module: Seq<u8>,
    specifier: Seq<u8>,
    sibling: Seq<u8>,
    modules: Set<Seq<u8>>,
    imports: Map<Seq<u8>, Seq<u8>>,
)
    requires
        relative(specifier),
        link_target(module, specifier) == Some(sibling),
        modules.contains(sibling),
    ensures
        forall|quote: u8|
            (#[trigger] replacement(TargetView::Browser { module, modules, imports }, specifier, quote))
                matches Some(written) && resolved(placed(root, module), written) == Some(
                placed(root, sibling),
            ),
        forall|quote: u8|
            (#[trigger] replacement(TargetView::Server, specifier, quote)) matches Some(written)
                && resolved(placed(root, module), written) == Some(placed(root, sibling)),
{
    lemma_relative_link_survives_placement(root, module, with_extension(specifier), sibling);
}

/// Determinism: the browser variant is determined by the module's
/// identifier and text, by what the parser said of the text, by the set of
/// registered identifiers, and by the
/// mapping that the import map stands for. Two compilations that agree on
/// these return the same bytes or the same error, whichever caches and
/// import maps they were handed.
pub proof fn lemma_browser_variant_is_determined(
    module: Seq<u8>,
    s: Seq<u8>,
    parsed: VerdictView,
    cache1: Cache,
    map1: ImportMap,
    cache2: Cache,
    map2: ImportMap,
    first: Result<Vec<u8>, CompileError>,
    second: Result<Vec<u8>, CompileError>,
)
    requires
        cache1@.dom() == cache2@.dom(),
        map1@ == map2@,
        outcome_view(first) == browser_js(module, s, parsed, cache1@.dom(), map1@),
        outcome_view(second) == browser_js(module, s, parsed, cache2@.dom(), map2@),
    ensures
        outcome_view(first) == outcome_view(second),
        first matches Ok(a) ==> second matches Ok(b) && a@ == b@,
{
}

/// Determinism: the server variant is determined by the module's
/// identifier and text and by what the parser said of the text.
pub proof fn lemma_server_variant_is_determined(
    module: Seq<u8>,
    s: Seq<u8>,
    parsed: VerdictView,
    first: Result<Vec<u8>, CompileError>,
    second: Result<Vec<u8>, CompileError>,
)
    requires
        outcome_view(first) == server_js(module, s, parsed),
        outcome_view(second) == server_js(module, s, parsed),
    ensures
        outcome_view(first) == outcome_view(second),
        first matches Ok(a) ==> second matches Ok(b) && a@ == b@,
{
}

proof fn lemma_literal_end_after_prefix(
    a: Seq<u8>,
    b: Seq<u8>,
    i: int,
    delimiter: u8,
    multiline: bool,
)
    requires
        0 <= i,
    ensures
        literal_end(a + b, a.len() + i, delimiter, multiline) == match literal_end(
            b,
            i,
            delimiter,
            multiline,
        ) {
            Some(j) => Some(a.len() + j),
            None => None,
        },
    decreases b.len() - i,
{
    let whole = a + b;
    let at = a.len() + i;
    if i < b.len() {
        assert(whole[at] == b[i]);
        if b[i] == delimiter {
        } else if b[i] == BACKSLASH {
            if i + 1 < b.len() {
                lemma_literal_end_after_prefix(a, b, i + 2, delimiter, multiline);
            }
        } else if !multiline && b[i] == NEWLINE {
        } else {
            lemma_literal_end_after_prefix(a, b, i + 1, delimiter, multiline);
        }
    }
}

/// An escaped target cannot end its literal early: in a string literal
/// whose content begins with the escaped text of any value, the closing
/// quote is found behind that text, where it is found in what follows.
pub proof fn lemma_escaped_stays_inside(value: Seq<u8>, quote: u8, tail: Seq<u8>)
    requires
        quote == QUOTE || quote == APOSTROPHE,
    ensures
        literal_end(escaped(value, quote) + tail, 0, quote, false) == match literal_end(
            tail,
            0,
            quote,
            false,
        ) {
            Some(j) => Some(escaped(value, quote).len() + j),
            None => None,
        },
    decreases value.len(),
{
    if value.len() == 0 {
        assert(escaped(value, quote) + tail == tail);
    } else {
        let head = escaped_byte(value[0], quote);
        let rest = escaped(value.skip(1), quote);
        let whole = escaped(value, quote) + tail;
        assert(whole == head + (rest + tail));
        lemma_escaped_stays_inside(value.skip(1), quote, tail);
        lemma_literal_end_after_prefix(head, rest + tail, 0, quote, false);
        assert(whole[0] == head[0]);
        if head.len() == 2 {
            assert(whole[1] == head[1]);
        }
    }
}

/// The text that stands for `value` in a string literal between `quote`s.
pub fn escape(value: &[u8], quote: u8) -> (r: Vec<u8>)
    ensures
        r@ == escaped(value@, quote),
{
    let mut out: Vec<u8> = Vec::new();
    let mut i: usize = 0;
    assert(value@.skip(0) == value@);
    while i < value.len()
        invariant
            i <= value.len(),
            escaped(value@, quote) == out@ + escaped(value@.skip(i as int), quote),
        decreases value.len() - i,
    {
        let b = value[i];
        let ghost before = out@;
        proof {
            let rest = value@.skip(i as int);
            assert(rest[0] == b);
            assert(rest.skip(1) == value@.skip(i + 1));
        }
        if b == quote || b == BACKSLASH {
            out.push(BACKSLASH);
            out.push(b);
        } else if b == NEWLINE {
            out.push(BACKSLASH);
            out.push(110u8);
        } else if b == CARRIAGE_RETURN {
            out.push(BACKSLASH);
            out.push(114u8);
        } else {
            out.push(b);
        }
        assert(out@ == before + escaped_byte(b, quote));
        assert((before + escaped_byte(b, quote)) + escaped(value@.skip(i + 1), quote) == before + (
        escaped_byte(b, quote) + escaped(value@.skip(i + 1), quote)));
        i += 1;
    }
    assert(escaped(value@.skip(value.len() as int), quote) == Seq::<u8>::empty());
    out
}

impl<'a> View for Target<'a> {
    type V = TargetView;

    open spec fn view(&self) -> TargetView {
        match self {
            Target::Browser { module, cache, import_map } => TargetView::Browser {
                module: module@,
                modules: cache@.dom(),
                imports: import_map@,
            },
            Target::Server => TargetView::Server,
        }
    }
}

impl<'a> Target<'a> {
    /// The cache and the import map that the target consults are valid.
    pub open spec fn wf(&self) -> bool {
        match self {
            Target::Browser { module, cache, import_map } => cache.wf() && import_map.wf(),
            Target::Server => true,
        }
    }

    /// What is written in place of `specifier`, which stands between
    /// `quote`s, or `None` when the specifier is an unresolved dependency.
    pub fn resolve(&self, specifier: &[u8], quote: u8) -> (r: Option<Vec<u8>>)
        requires
            self.wf(),
        ensures
            r is Some == replacement(self@, specifier@, quote) is Some,
            r matches Some(t) ==> Some(t@) == replacement(self@, specifier@, quote),
    {
        let is_rel = is_relative(specifier);
        match self {
            Target::Browser { module, cache, import_map } => {
                if is_rel {
                    let linked = ensure_extension(specifier);
                    match resolve_relative(module, linked.as_slice()) {
                        Some(t) => {
                            if cache.contains(t.as_slice()) {
                                return Some(linked);
                            }
                        },
                        None => {},
                    }
                }
                match import_map.get(specifier) {
                    Some(t) => Some(escape(t.as_slice(), quote)),
                    None => {
                        if is_rel {
                            Some(to_vec(specifier))
                        } else {
                            None
                        }
                    },
                }
            },
            Target::Server => {
                if is_rel {
                    Some(ensure_extension(specifier))
                } else {
                    Some(to_vec(specifier))
                }
            },
        }
    }
}

/// The model of what [`rewrite`] returns.
pub open spec fn rewrite_view(r: Result<Vec<u8>, Vec<u8>>) -> Result<Seq<u8>, Seq<u8>> {
    match r {
        Ok(code) => Ok(code@),
        Err(specifier) => Err(specifier@),
    }
}

/// Writes `src` out with the specifiers at `spans` rewritten for the
/// target. Fails with the first specifier that is unresolved.
pub fn rewrite(src: &[u8], spans: &Vec<Span>, target: &Target) -> (r: Result<Vec<u8>, Vec<u8>>)
    requires
        target.wf(),
        in_order(span_views(spans@), src@.len() as int),
        quoted(src@, span_views(spans@)),
    ensures
        rewrite_view(r) == rewritten(src@, span_views(spans@), target@),
{
    let ghost views = span_views(spans@);
    let ghost n = views.len() as int;
    let mut out: Vec<u8> = Vec::new();
    let mut pos: usize = 0;
    let mut k: usize = 0;
    while k < spans.len()
        invariant
            k <= spans.len(),
            target.wf(),
            views == span_views(spans@),
            n == spans.len(),
            in_order(views, src@.len() as int),
            quoted(src@, views),
            pos == gap_start(views, k as int),
            pos <= src.len(),
            first_unresolved(src@, views, target@, k as int) is None,
            out@ == emitted(src@, views, target@, k as int),
        decreases spans.len() - k,
    {
        let span = spans[k];
        proof {
            assert(views[k as int] == span@);
            if k > 0 {
                assert(views[k - 1].1 < views[k as int].0);
            }
        }
        append(&mut out, vstd::slice::slice_subrange(src, pos, span.start));
        let specifier = vstd::slice::slice_subrange(src, span.start, span.end);
        assert(specifier@ == content(src@, views, k as int));
        let quote = src[span.start - 1];
        match target.resolve(specifier, quote) {
            Some(t) => {
                append(&mut out, t.as_slice());
            },
            None => {
                proof {
                    lemma_first_unresolved_stays(src@, views, target@, k as int, n);
                }
                return Err(to_vec(specifier));
            },
        }
        pos = span.end;
        k += 1;
    }
    append(&mut out, vstd::slice::slice_subrange(src, pos, src.len()));
    Ok(out)
}

/// Whether the spans fit the text: they lie in it one after the other,
/// each the content of a string literal.
pub fn spans_fit(src: &[u8], spans: &Vec<Span>) -> (r: bool)
    ensures
        r == fits(src@, span_views(spans@)),
{
    let ghost views = span_views(spans@);
    let mut k: usize = 0;
    let mut pos: usize = 0;
    while k < spans.len()
        invariant
            k <= spans.len(),
            views == span_views(spans@),
            k > 0 ==> pos == views[k - 1].1,
            forall|i: int|
                0 <= i < k ==> 0 < (#[trigger] views[i]).0 <= views[i].1 < src@.len() && src@[views[i].0
                    - 1] == src@[views[i].1] && (src@[views[i].1] == QUOTE || src@[views[i].1]
                    == APOSTROPHE),
            forall|i: int, j: int| 0 <= i < j < k ==> (#[trigger] views[i]).1 < (#[trigger] views[j]).0,
        decreases spans.len() - k,
    {
        let span = spans[k];
        assert(views[k as int] == span@);
        let placed = 0 < span.start && span.start <= span.end && span.end < src.len() && (k == 0
            || pos < span.start);
        if !placed {
            assert(!fits(src@, views)) by {
                if k > 0 && pos >= span.start {
                    assert(views[k - 1].1 >= views[k as int].0);
                }
            }
            return false;
        }
        let quote = src[span.end];
        if src[span.start - 1] != quote || (quote != QUOTE && quote != APOSTROPHE) {
            assert(!quoted(src@, views));
            return false;
        }
        assert forall|i: int, j: int| 0 <= i < j < k + 1 implies (#[trigger] views[i]).1 < (
        #[trigger] views[j]).0 by {
            if j == k && i < k - 1 {
                assert(views[i].1 < views[k - 1].0);
            }
        }
        pos = span.end;
        k += 1;
    }
    true
}

/// Compiles for the target the text `src` of the module `module`, of which
/// the parser said `parsed`.
pub fn compile(module: &[u8], src: &[u8], parsed: &Verdict, target: &Target) -> (r: Result<
    Vec<u8>,
    CompileError,
>)
    requires
        target.wf(),
    ensures
        outcome_view(r) == compiled(module@, src@, verdict_view(*parsed), target@),
{
    match parsed {
        Err(e) => Err(CompileError::Parse { module: to_vec(module), fault: e.fault, at: e.at }),
        Ok(spans) => {
            if !spans_fit(src, spans) {
                return Err(CompileError::Misplaced { module: to_vec(module) });
            }
            match rewrite(src, spans, target) {
                Ok(code) => Ok(code),
                Err(specifier) => Err(
                    CompileError::Unresolved { module: to_vec(module), specifier },
                ),
            }
        },
    }
}

/// The browser variant of the module `module` with text `src`: relative
/// specifiers that name a module in `cache` get their extension, other
/// specifiers that `import_map` holds become their targets, other relative
/// specifiers are kept. Fails when the parser reported a fault, when the
/// places it gave do not fit the text, or when a bare specifier is not in
/// the map.
pub fn compile_browser(
    module: &[u8],
    src: &[u8],
    parsed: &Verdict,
    cache: &Cache,
    import_map: &ImportMap,
) -> (r: Result<Vec<u8>, CompileError>)
    requires
        cache.wf(),
        import_map.wf(),
    ensures
        outcome_view(r) == browser_js(
            module@,
            src@,
            verdict_view(*parsed),
            cache@.dom(),
            import_map@,
        ),
{
    let target = Target::Browser { module, cache, import_map };
    compile(module, src, parsed, &target)
}

/// The server variant of the module `module` with text `src`: relative
/// specifiers get their extension, bare specifiers are kept. Fails when
/// the parser reported a fault or the places it gave do not fit the text.
pub fn compile_server(module: &[u8], src: &[u8], parsed: &Verdict) -> (r: Result<
    Vec<u8>,
    CompileError,
>)
    ensures
        outcome_view(r) == server_js(module@, src@, verdict_view(*parsed)),
{
    let target = Target::Server;
    compile(module, src, parsed, &target)
}

impl Cache {
    /// The browser variant of the source stored under `source_id`.
    pub fn get_js_for_browser(&self, source_id: &[u8], import_map: &ImportMap) -> (r: Result<
        Vec<u8>,
        CompileError,
    >)
        requires
            self.wf(),
            import_map.wf(),
        ensures
            outcome_view(r) == if self@.contains_key(source_id@) {
                browser_js(
                    source_id@,
                    self@[source_id@].source,
                    self@[source_id@].parsed,
                    self@.dom(),
                    import_map@,
                )
            } else {
                Err(CompileErrorView::UnknownSource { module: source_id@ })
            },
    {
        match self.get_source(source_id) {
            Some(record) => compile_browser(
                source_id,
                record.source.as_slice(),
                &record.parsed,
                self,
                import_map,
            ),
            None => Err(CompileError::UnknownSource { module: to_vec(source_id) }),
        }
    }

    /// The server variant of the source stored under `source_id`.
    pub fn get_js_for_server(&self, source_id: &[u8]) -> (r: Result<Vec<u8>, CompileError>)
        requires
            self.wf(),
        ensures
            outcome_view(r) == if self@.contains_key(source_id@) {
                server_js(source_id@, self@[source_id@].source, self@[source_id@].parsed)
            } else {
                Err(CompileErrorView::UnknownSource { module: source_id@ })
            },
    {
        match self.get_source(source_id) {
            Some(record) => compile_server(source_id, record.source.as_slice(), &record.parsed),
            None => Err(CompileError::UnknownSource { module: to_vec(source_id) }),
        }
    }
}

} // verus!
