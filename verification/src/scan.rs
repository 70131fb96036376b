//! Finds the module specifiers of a script module.
//!
//! The text is read as a run of lexical elements: blanks, line comments,
//! block comments, string literals, template literals, regular expression
//! literals, words, brackets and single other bytes. A string literal is a
//! module specifier when the element before it, blanks and comments aside,
//! is the word `from` (static import and re-export), the word `import`
//! (import for effect), or `import` and an opening parenthesis (dynamic
//! import). A word that follows a `.` is a property name and never a
//! keyword.
//!
//! The reader reports the errors of syntax that a reading of this kind can
//! see: an element that does not end, a bracket without its partner, and
//! an import declaration of another shape than `import` and a string,
//! `import(`, `import.`, `import:` (a property of that name), or `import`,
//! a clause of names, `*`, `,` and one pair of braces, `from` and a
//! string. Any other error of syntax is for a parser of the whole language
//! to find.
//!
//! A `/` begins a regular expression literal where an expression may
//! begin, that is, not after a word other than a keyword that an expression
//! follows, not after a literal, and not after `)` or `]`, and only when
//! the literal ends on the same line. Any other `/` is a single byte. In a
//! template literal `${` begins script, which ends at the `}` that closes
//! it.
//!
//! Limit: markup embedded in a module is read as script.

use vstd::prelude::*;
use crate::path::{DOT, SLASH};
use crate::text::bytes_eq;

verus! {

/// The byte `"`.
pub const QUOTE: u8 = 34;

/// The byte `'`.
pub const APOSTROPHE: u8 = 39;

/// The byte `` ` ``.
pub const BACKTICK: u8 = 96;

/// The byte `\`.
pub const BACKSLASH: u8 = 92;

/// The line feed.
pub const NEWLINE: u8 = 10;

/// The byte `*`.
pub const STAR: u8 = 42;

/// The byte `(`.
pub const OPEN_PAREN: u8 = 40;

/// The byte `)`.
pub const CLOSE_PAREN: u8 = 41;

/// The byte `[`.
pub const OPEN_BRACKET: u8 = 91;

/// The byte `]`.
pub const CLOSE_BRACKET: u8 = 93;

/// The carriage return.
pub const CARRIAGE_RETURN: u8 = 13;

/// The byte `{`.
pub const OPEN_BRACE: u8 = 123;

/// The byte `}`.
pub const CLOSE_BRACE: u8 = 125;

/// The byte `$`.
pub const DOLLAR: u8 = 36;

/// The byte `,`.
pub const COMMA: u8 = 44;

/// The byte `:`.
pub const COLON: u8 = 58;

/// The byte `+`.
pub const PLUS: u8 = 43;

/// The byte `-`.
pub const MINUS: u8 = 45;

/// The word `import`.
pub open spec fn word_import() -> Seq<u8> {
    seq![105u8, 109u8, 112u8, 111u8, 114u8, 116u8]
}

/// The word `from`.
pub open spec fn word_from() -> Seq<u8> {
    seq![102u8, 114u8, 111u8, 109u8]
}

/// The keywords that an expression follows: `return`, `typeof`,
/// `instanceof`, `in`, `of`, `new`, `delete`, `void`, `throw`, `case`, `do`,
/// `else`, `yield`, `await`.
pub open spec fn expression_keywords() -> Seq<Seq<u8>> {
    seq![
        seq![114u8, 101u8, 116u8, 117u8, 114u8, 110u8],
        seq![116u8, 121u8, 112u8, 101u8, 111u8, 102u8],
        seq![105u8, 110u8, 115u8, 116u8, 97u8, 110u8, 99u8, 101u8, 111u8, 102u8],
        seq![105u8, 110u8],
        seq![111u8, 102u8],
        seq![110u8, 101u8, 119u8],
        seq![100u8, 101u8, 108u8, 101u8, 116u8, 101u8],
        seq![118u8, 111u8, 105u8, 100u8],
        seq![116u8, 104u8, 114u8, 111u8, 119u8],
        seq![99u8, 97u8, 115u8, 101u8],
        seq![100u8, 111u8],
        seq![101u8, 108u8, 115u8, 101u8],
        seq![121u8, 105u8, 101u8, 108u8, 100u8],
        seq![97u8, 119u8, 97u8, 105u8, 116u8],
    ]
}

/// Blank bytes: space, tab, line feed, carriage return.
pub open spec fn is_blank(b: u8) -> bool {
    b == 32 || b == 9 || b == 10 || b == 13
}

/// Bytes of a word: letters, digits, `_`, `$`, and every byte of a
/// character outside ASCII.
pub open spec fn is_word_byte(b: u8) -> bool {
    (48 <= b <= 57) || (65 <= b <= 90) || (97 <= b <= 122) || b == 95 || b == 36 || b >= 128
}

/// What went before the element under the cursor, blanks and comments aside.
#[derive(Clone, Copy, PartialEq, Eq, Debug, Structural)]
pub enum Lead {
    /// Nothing that announces a specifier.
    Plain,
    /// The word `import`.
    Import,
    /// The word `import` and an opening parenthesis.
    ImportCall,
    /// The word `import` and a part of its clause, outside braces.
    Clause,
    /// The word `import` and a part of its clause, inside braces.
    ClauseOpen,
    /// The word `from` where no import clause went before.
    From,
    /// The word `from` that ends an import clause.
    FromOfImport,
}

/// Why a module could not be read.
#[derive(Clone, Copy, PartialEq, Eq, Debug, Structural)]
pub enum Fault {
    /// A block comment without its end.
    UnterminatedComment,
    /// A string literal without its closing quote on the same line.
    UnterminatedString,
    /// A template literal without its closing backtick.
    UnterminatedTemplate,
    /// A closing bracket that does not close the bracket last opened.
    UnbalancedBracket,
    /// An opening bracket, or the `${` of a template literal, that the
    /// text does not close.
    UnclosedBracket,
    /// An import declaration of a shape that is none.
    MalformedImport,
    /// Any other error of syntax, as a parser of the whole language finds
    /// it. The reader of this module never reports it.
    Syntax,
}

/// A fault and the offset of the element that has it.
#[derive(Clone, Copy, PartialEq, Eq, Debug, Structural)]
pub struct ParseError {
    pub fault: Fault,
    pub at: usize,
}

/// The place of a specifier in the text: the bytes `start..end` between the
/// quotes of its literal.
#[derive(Clone, Copy, PartialEq, Eq, Debug, Structural)]
pub struct Span {
    pub start: usize,
    pub end: usize,
}

impl View for Span {
    type V = (int, int);

    open spec fn view(&self) -> (int, int) {
        (self.start as int, self.end as int)
    }
}

impl View for ParseError {
    type V = (Fault, int);

    open spec fn view(&self) -> (Fault, int) {
        (self.fault, self.at as int)
    }
}

/// The views of the spans held in a vector.
pub open spec fn span_views(v: Seq<Span>) -> Seq<(int, int)> {
    Seq::new(v.len(), |i: int| v[i]@)
}

/// What a parser says of the text of a module: where its specifiers
/// stand, or why the text is no module.
pub type Verdict = Result<Vec<Span>, ParseError>;

/// The model of a [`Verdict`].
pub type VerdictView = Result<Seq<(int, int)>, (Fault, int)>;

/// The model of a verdict.
pub open spec fn verdict_view(v: Verdict) -> VerdictView {
    match v {
        Ok(spans) => Ok(span_views(spans@)),
        Err(e) => Err(e@),
    }
}

/// The offset of the first line feed at or after `i`, or the length of the
/// text when there is none.
pub open spec fn line_end(s: Seq<u8>, i: int) -> int
    decreases s.len() - i,
{
    if i >= s.len() {
        s.len() as int
    } else if s[i] == NEWLINE {
        i
    } else {
        line_end(s, i + 1)
    }
}

/// The offset just after the first `*/` that begins at or after `i`.
pub open spec fn comment_end(s: Seq<u8>, i: int) -> Option<int>
    decreases s.len() - i,
{
    if i + 1 >= s.len() {
        None
    } else if s[i] == STAR && s[i + 1] == SLASH {
        Some(i + 2)
    } else {
        comment_end(s, i + 1)
    }
}

/// The offset of the delimiter that closes a literal whose content begins
/// at `i`. A backslash takes the next byte with it. A string literal may
/// not hold a line feed; a template literal may.
pub open spec fn literal_end(s: Seq<u8>, i: int, delimiter: u8, multiline: bool) -> Option<int>
    decreases s.len() - i,
{
    if i >= s.len() {
        None
    } else if s[i] == delimiter {
        Some(i)
    } else if s[i] == BACKSLASH {
        if i + 1 >= s.len() {
            None
        } else {
            literal_end(s, i + 2, delimiter, multiline)
        }
    } else if !multiline && s[i] == NEWLINE {
        None
    } else {
        literal_end(s, i + 1, delimiter, multiline)
    }
}

/// The offset just after the word bytes that begin at `i`.
pub open spec fn word_end(s: Seq<u8>, i: int) -> int
    decreases s.len() - i,
{
    if i >= s.len() {
        s.len() as int
    } else if is_word_byte(s[i]) {
        word_end(s, i + 1)
    } else {
        i
    }
}

/// The offset of the `/` that closes a regular expression literal whose
/// body begins at `i`, or `None` when the line ends before it. A backslash
/// takes the next byte with it, and a `/` between `[` and `]` does not
/// close the literal; `in_class` tells whether `i` lies between them.
pub open spec fn regex_end(s: Seq<u8>, i: int, in_class: bool) -> Option<int>
    decreases s.len() - i,
{
    if i >= s.len() {
        None
    } else if s[i] == NEWLINE || s[i] == CARRIAGE_RETURN {
        None
    } else if s[i] == BACKSLASH {
        if i + 1 >= s.len() {
            None
        } else {
            regex_end(s, i + 2, in_class)
        }
    } else if in_class {
        regex_end(s, i + 1, s[i] != CLOSE_BRACKET)
    } else if s[i] == OPEN_BRACKET {
        regex_end(s, i + 1, true)
    } else if s[i] == SLASH {
        Some(i)
    } else {
        regex_end(s, i + 1, false)
    }
}

/// Whether an expression has ended after the word `s[i..j]`, so that a `/`
/// behind it divides: it has, unless the word is a keyword that an
/// expression follows.
pub open spec fn operand_after_word(s: Seq<u8>, i: int, j: int) -> bool {
    (i > 0 && s[i - 1] == DOT) || !expression_keywords().contains(s.subrange(i, j))
}

/// What the word `s[i..j]` announces.
pub open spec fn lead_of_word(s: Seq<u8>, i: int, j: int) -> Lead {
    if i > 0 && s[i - 1] == DOT {
        Lead::Plain
    } else if s.subrange(i, j) == word_import() {
        Lead::Import
    } else if s.subrange(i, j) == word_from() {
        Lead::From
    } else {
        Lead::Plain
    }
}

/// `spans` after the span `first`, where `rest` has any.
pub open spec fn after(first: (int, int), rest: Result<Seq<(int, int)>, (Fault, int)>) -> Result<
    Seq<(int, int)>,
    (Fault, int),
> {
    match rest {
        Ok(spans) => Ok(seq![first] + spans),
        Err(e) => Err(e),
    }
}

/// A line ends at or after the offset it is looked for from.
pub proof fn lemma_line_end(s: Seq<u8>, i: int)
    requires
        0 <= i <= s.len(),
    ensures
        i <= line_end(s, i) <= s.len(),
    decreases s.len() - i,
{
    if i < s.len() && s[i] != NEWLINE {
        lemma_line_end(s, i + 1);
    }
}

/// A block comment ends behind its two closing bytes.
pub proof fn lemma_comment_end(s: Seq<u8>, i: int)
    requires
        0 <= i,
    ensures
        comment_end(s, i) matches Some(j) ==> i + 2 <= j <= s.len(),
    decreases s.len() - i,
{
    if i + 1 < s.len() && !(s[i] == STAR && s[i + 1] == SLASH) {
        lemma_comment_end(s, i + 1);
    }
}

/// A literal ends at its delimiter, inside the text.
pub proof fn lemma_literal_end(s: Seq<u8>, i: int, delimiter: u8, multiline: bool)
    requires
        0 <= i,
    ensures
        literal_end(s, i, delimiter, multiline) matches Some(j) ==> i <= j < s.len() && s[j]
            == delimiter,
    decreases s.len() - i,
{
    if i < s.len() && s[i] != delimiter {
        if s[i] == BACKSLASH {
            if i + 1 < s.len() {
                lemma_literal_end(s, i + 2, delimiter, multiline);
            }
        } else if multiline || s[i] != NEWLINE {
            lemma_literal_end(s, i + 1, delimiter, multiline);
        }
    }
}

/// A word ends behind its first byte.
pub proof fn lemma_word_end(s: Seq<u8>, i: int)
    requires
        0 <= i <= s.len(),
    ensures
        i <= word_end(s, i) <= s.len(),
        i < s.len() && is_word_byte(s[i]) ==> i < word_end(s, i),
    decreases s.len() - i,
{
    if i < s.len() && is_word_byte(s[i]) {
        lemma_word_end(s, i + 1);
    }
}

/// A regular expression literal ends at a `/`, inside the text.
pub proof fn lemma_regex_end(s: Seq<u8>, i: int, in_class: bool)
    requires
        0 <= i,
    ensures
        regex_end(s, i, in_class) matches Some(j) ==> i <= j < s.len() && s[j] == SLASH,
    decreases s.len() - i,
{
    if i < s.len() && s[i] != NEWLINE && s[i] != CARRIAGE_RETURN {
        if s[i] == BACKSLASH {
            if i + 1 < s.len() {
                lemma_regex_end(s, i + 2, in_class);
            }
        } else if in_class {
            lemma_regex_end(s, i + 1, s[i] != CLOSE_BRACKET);
        } else if s[i] == OPEN_BRACKET {
            lemma_regex_end(s, i + 1, true);
        } else if s[i] != SLASH {
            lemma_regex_end(s, i + 1, false);
        }
    }
}

/// The offset at which the text of a template literal stops: that of the
/// closing backtick, or that of the `$` of a `${`. The text begins at `i`;
/// a backslash takes the next byte with it.
pub open spec fn template_stop(s: Seq<u8>, i: int) -> Option<int>
    decreases s.len() - i,
{
    if i >= s.len() {
        None
    } else if s[i] == BACKTICK {
        Some(i)
    } else if s[i] == DOLLAR && i + 1 < s.len() && s[i + 1] == OPEN_BRACE {
        Some(i)
    } else if s[i] == BACKSLASH {
        if i + 1 >= s.len() {
            None
        } else {
            template_stop(s, i + 2)
        }
    } else {
        template_stop(s, i + 1)
    }
}

/// The text of a template literal stops inside the text.
pub proof fn lemma_template_stop(s: Seq<u8>, i: int)
    requires
        0 <= i,
    ensures
        template_stop(s, i) matches Some(j) ==> i <= j < s.len() && (s[j] == BACKTICK || (s[j]
            == DOLLAR && j + 1 < s.len())),
    decreases s.len() - i,
{
    if i < s.len() && s[i] != BACKTICK && !(s[i] == DOLLAR && i + 1 < s.len() && s[i + 1]
        == OPEN_BRACE) {
        if s[i] == BACKSLASH {
            if i + 1 < s.len() {
                lemma_template_stop(s, i + 2);
            }
        } else {
            lemma_template_stop(s, i + 1);
        }
    }
}

/// The state of the reading after one element.
pub struct Move {
    /// Where the next element begins.
    pub next: int,
    /// What went before the next element.
    pub lead: Lead,
    /// Whether an expression has just ended.
    pub operand: bool,
    /// The offsets of the brackets that are open, the innermost last. The
    /// `${` of a template literal is held by the offset of its `$`.
    pub open: Seq<int>,
    /// The specifier that the element is, if it is one.
    pub found: Option<(int, int)>,
}

/// Whether an element that begins with the byte `b` may follow `lead`.
/// After `import` come a string, `(`, `.`, `:`, or a clause; in a clause
/// come names, `*`, `,` and one pair of braces; after the `from` of an
/// import comes a string.
pub open spec fn accepts(lead: Lead, b: u8) -> bool {
    match lead {
        Lead::Import => b == QUOTE || b == APOSTROPHE || b == OPEN_PAREN || b == DOT || b
            == COLON || b == OPEN_BRACE || b == STAR || is_word_byte(b),
        Lead::Clause => b == OPEN_BRACE || b == COMMA || b == STAR || is_word_byte(b),
        Lead::ClauseOpen => b == CLOSE_BRACE || b == COMMA || is_word_byte(b),
        Lead::FromOfImport => b == QUOTE || b == APOSTROPHE,
        _ => true,
    }
}

/// Whether a string literal after `lead` is a module specifier.
pub open spec fn announces(lead: Lead) -> bool {
    lead == Lead::Import || lead == Lead::ImportCall || lead == Lead::From || lead
        == Lead::FromOfImport
}

/// What goes before the element after the word `s[i..j]`.
pub open spec fn lead_after_word(lead: Lead, s: Seq<u8>, i: int, j: int) -> Lead {
    match lead {
        Lead::Import => Lead::Clause,
        Lead::Clause => if s.subrange(i, j) == word_from() {
            Lead::FromOfImport
        } else {
            Lead::Clause
        },
        Lead::ClauseOpen => Lead::ClauseOpen,
        _ => lead_of_word(s, i, j),
    }
}

/// What goes before the element after the opening bracket `b`.
pub open spec fn lead_after_open(lead: Lead, b: u8) -> Lead {
    if b == OPEN_PAREN && lead == Lead::Import {
        Lead::ImportCall
    } else if b == OPEN_BRACE && (lead == Lead::Import || lead == Lead::Clause) {
        Lead::ClauseOpen
    } else {
        Lead::Plain
    }
}

/// What goes before the element after the single byte `b`.
pub open spec fn lead_after_byte(lead: Lead, b: u8) -> Lead {
    if lead == Lead::Clause || lead == Lead::ClauseOpen {
        lead
    } else if lead == Lead::Import && b == STAR {
        Lead::Clause
    } else {
        Lead::Plain
    }
}

/// The opening bracket that the closing bracket `b` closes.
pub open spec fn opener_of(b: u8) -> u8 {
    if b == CLOSE_PAREN {
        OPEN_PAREN
    } else if b == CLOSE_BRACKET {
        OPEN_BRACKET
    } else {
        OPEN_BRACE
    }
}

/// The reading of the text of a template literal from `from` on: to its
/// closing backtick, or to a `${`, which is then open.
pub open spec fn template_read(s: Seq<u8>, from: int, at: int, open: Seq<int>) -> Result<
    Move,
    (Fault, int),
> {
    match template_stop(s, from) {
        None => Err((Fault::UnterminatedTemplate, at)),
        Some(j) => if s[j] == BACKTICK {
            Ok(Move { next: j + 1, lead: Lead::Plain, operand: true, open, found: None })
        } else {
            Ok(
                Move {
                    next: j + 2,
                    lead: Lead::Plain,
                    operand: false,
                    open: open.push(j),
                    found: None,
                },
            )
        },
    }
}

/// The reading of the element that begins at `i`, where `lead` went
/// before, `operand` tells whether an expression has just ended, and the
/// brackets at `open` are open.
pub open spec fn step(s: Seq<u8>, i: int, lead: Lead, operand: bool, open: Seq<int>) -> Result<
    Move,
    (Fault, int),
> {
    let b = s[i];
    if is_blank(b) {
        Ok(Move { next: i + 1, lead, operand, open, found: None })
    } else if b == SLASH && i + 1 < s.len() && s[i + 1] == SLASH {
        Ok(Move { next: line_end(s, i + 2), lead, operand, open, found: None })
    } else if b == SLASH && i + 1 < s.len() && s[i + 1] == STAR {
        match comment_end(s, i + 2) {
            Some(j) => Ok(Move { next: j, lead, operand, open, found: None }),
            None => Err((Fault::UnterminatedComment, i)),
        }
    } else if !accepts(lead, b) {
        Err((Fault::MalformedImport, i))
    } else if b == SLASH {
        match regex_end(s, i + 1, false) {
            Some(j) => if operand {
                Ok(Move { next: i + 1, lead: Lead::Plain, operand: false, open, found: None })
            } else {
                Ok(Move { next: j + 1, lead: Lead::Plain, operand: true, open, found: None })
            },
            None => Ok(
                Move { next: i + 1, lead: Lead::Plain, operand: false, open, found: None },
            ),
        }
    } else if b == QUOTE || b == APOSTROPHE {
        match literal_end(s, i + 1, b, false) {
            Some(j) => Ok(
                Move {
                    next: j + 1,
                    lead: Lead::Plain,
                    operand: true,
                    open,
                    found: if announces(lead) {
                        Some((i + 1, j))
                    } else {
                        None
                    },
                },
            ),
            None => Err((Fault::UnterminatedString, i)),
        }
    } else if b == BACKTICK {
        template_read(s, i + 1, i, open)
    } else if is_word_byte(b) {
        Ok(
            Move {
                next: word_end(s, i),
                lead: lead_after_word(lead, s, i, word_end(s, i)),
                operand: operand_after_word(s, i, word_end(s, i)),
                open,
                found: None,
            },
        )
    } else if b == OPEN_PAREN || b == OPEN_BRACKET || b == OPEN_BRACE {
        Ok(
            Move {
                next: i + 1,
                lead: lead_after_open(lead, b),
                operand: false,
                open: open.push(i),
                found: None,
            },
        )
    } else if b == CLOSE_PAREN || b == CLOSE_BRACKET || b == CLOSE_BRACE {
        if open.len() == 0 {
            Err((Fault::UnbalancedBracket, i))
        } else if b == CLOSE_BRACE && s[open.last()] == DOLLAR {
            template_read(s, i + 1, i, open.drop_last())
        } else if s[open.last()] == opener_of(b) {
            Ok(
                Move {
                    next: i + 1,
                    lead: if lead == Lead::ClauseOpen {
                        Lead::Clause
                    } else {
                        Lead::Plain
                    },
                    operand: b != CLOSE_BRACE,
                    open: open.drop_last(),
                    found: None,
                },
            )
        } else {
            Err((Fault::UnbalancedBracket, i))
        }
    } else if (b == PLUS || b == MINUS) && i + 1 < s.len() && s[i + 1] == b {
        Ok(Move { next: i + 2, lead: Lead::Plain, operand, open, found: None })
    } else {
        Ok(
            Move {
                next: i + 1,
                lead: lead_after_byte(lead, b),
                operand: false,
                open,
                found: None,
            },
        )
    }
}

/// What the end of the text means: an import declaration that is under
/// way is malformed, and a bracket that is open is unclosed.
pub open spec fn finish(s: Seq<u8>, lead: Lead, open: Seq<int>) -> Result<
    Seq<(int, int)>,
    (Fault, int),
> {
    if lead == Lead::Import || lead == Lead::Clause || lead == Lead::ClauseOpen || lead
        == Lead::FromOfImport {
        Err((Fault::MalformedImport, s.len() as int))
    } else if open.len() > 0 {
        Err((Fault::UnclosedBracket, open.last()))
    } else {
        Ok(Seq::<(int, int)>::empty())
    }
}

/// Every element is at least one byte long and ends in the text, and a
/// specifier is the content of a string literal that the element is.
pub proof fn lemma_step(s: Seq<u8>, i: int, lead: Lead, operand: bool, open: Seq<int>)
    requires
        0 <= i < s.len(),
    ensures
        step(s, i, lead, operand, open) matches Ok(m) ==> {
            &&& i < m.next <= s.len()
            &&& m.found matches Some((a, b)) ==> {
                &&& a == i + 1
                &&& a <= b < m.next
                &&& s[a - 1] == s[b]
                &&& (s[b] == QUOTE || s[b] == APOSTROPHE)
            }
        },
{
    if i + 2 <= s.len() {
        lemma_line_end(s, i + 2);
    }
    lemma_comment_end(s, i + 2);
    lemma_regex_end(s, i + 1, false);
    lemma_literal_end(s, i + 1, s[i], false);
    lemma_template_stop(s, i + 1);
    lemma_word_end(s, i);
}

/// The specifiers of `s` from offset `i` on, where `lead` went before,
/// `operand` tells whether an expression has just ended, and the brackets
/// at `open` are open.
pub open spec fn scan_from(s: Seq<u8>, i: int, lead: Lead, operand: bool, open: Seq<int>) -> Result<
    Seq<(int, int)>,
    (Fault, int),
>
    decreases s.len() - i,
{
    if i < 0 || i >= s.len() {
        finish(s, lead, open)
    } else {
        match step(s, i, lead, operand, open) {
            Err(e) => Err(e),
            Ok(m) => {
                proof {
                    lemma_step(s, i, lead, operand, open);
                }
                match m.found {
                    Some(span) => after(span, scan_from(s, m.next, m.lead, m.operand, m.open)),
                    None => scan_from(s, m.next, m.lead, m.operand, m.open),
                }
            },
        }
    }
}

/// The module specifiers of `s` in the order of the text, or the first
/// fault that stops the reading.
pub open spec fn specifiers(s: Seq<u8>) -> Result<Seq<(int, int)>, (Fault, int)> {
    scan_from(s, 0, Lead::Plain, false, Seq::<int>::empty())
}

/// Spans that lie in a text of length `len` one after the other.
pub open spec fn in_order(spans: Seq<(int, int)>, len: int) -> bool {
    &&& forall|k: int|
        0 <= k < spans.len() ==> 0 <= (#[trigger] spans[k]).0 <= spans[k].1 <= len
    &&& forall|j: int, k: int|
        0 <= j < k < spans.len() ==> (#[trigger] spans[j]).1 < (#[trigger] spans[k]).0
}

/// Each span is the content of a string literal: a quote stands before it
/// and the same quote after it.
pub open spec fn quoted(s: Seq<u8>, spans: Seq<(int, int)>) -> bool {
    forall|k: int|
        0 <= k < spans.len() ==> {
            let (a, b) = #[trigger] spans[k];
            &&& 0 < a <= b < s.len()
            &&& s[a - 1] == s[b]
            &&& (s[b] == QUOTE || s[b] == APOSTROPHE)
        }
}

/// The spans fit the text: they lie in it one after the other, each the
/// content of a string literal.
pub open spec fn fits(s: Seq<u8>, spans: Seq<(int, int)>) -> bool {
    in_order(spans, s.len() as int) && quoted(s, spans)
}

proof fn lemma_scan_from(s: Seq<u8>, i: int, lead: Lead, operand: bool, open: Seq<int>)
    requires
        0 <= i,
    ensures
        scan_from(s, i, lead, operand, open) matches Ok(spans) ==> {
            &&& in_order(spans, s.len() as int)
            &&& quoted(s, spans)
            &&& forall|k: int| 0 <= k < spans.len() ==> i < (#[trigger] spans[k]).0
        },
    decreases s.len() - i,
{
    if i < s.len() {
        if let Ok(m) = step(s, i, lead, operand, open) {
            lemma_step(s, i, lead, operand, open);
            lemma_scan_from(s, m.next, m.lead, m.operand, m.open);
            if let Some(first) = m.found {
                if let Ok(rest) = scan_from(s, m.next, m.lead, m.operand, m.open) {
                    let spans = seq![first] + rest;
                    assert(scan_from(s, i, lead, operand, open) == Ok::<
                        Seq<(int, int)>,
                        (Fault, int),
                    >(spans));
                    assert forall|k: int| 0 <= k < spans.len() implies {
                        &&& i < (#[trigger] spans[k]).0
                        &&& 0 <= spans[k].0 <= spans[k].1 <= s.len()
                    } by {
                        if k > 0 {
                            assert(spans[k] == rest[k - 1]);
                        }
                    }
                    assert forall|a: int, b: int| 0 <= a < b < spans.len() implies (
                    #[trigger] spans[a]).1 < (#[trigger] spans[b]).0 by {
                        assert(spans[b] == rest[b - 1]);
                        if a > 0 {
                            assert(spans[a] == rest[a - 1]);
                        }
                    }
                    assert forall|k: int| 0 <= k < spans.len() implies {
                        let (a, b) = #[trigger] spans[k];
                        &&& 0 < a <= b < s.len()
                        &&& s[a - 1] == s[b]
                        &&& (s[b] == QUOTE || s[b] == APOSTROPHE)
                    } by {
                        if k > 0 {
                            assert(spans[k] == rest[k - 1]);
                        }
                    }
                }
            }
        }
    }
}

/// The specifiers of a module lie in its text one after the other, each
/// between the quotes of a string literal.
pub proof fn lemma_specifiers_in_order(s: Seq<u8>)
    ensures
        specifiers(s) matches Ok(spans) ==> fits(s, spans),
{
    lemma_scan_from(s, 0, Lead::Plain, false, Seq::<int>::empty());
}

/// A closing bracket without an opening one is a fault: a text that begins,
/// blanks aside, with `)`, `]` or `}` is no module.
pub proof fn lemma_closing_bracket_first(s: Seq<u8>, i: int)
    requires
        0 <= i < s.len(),
        forall|k: int| 0 <= k < i ==> is_blank(#[trigger] s[k]),
        s[i] == CLOSE_PAREN || s[i] == CLOSE_BRACKET || s[i] == CLOSE_BRACE,
    ensures
        specifiers(s) == Err::<Seq<(int, int)>, (Fault, int)>((Fault::UnbalancedBracket, i)),
{
    lemma_blanks_are_passed(s, i, i);
}

proof fn lemma_blanks_are_passed(s: Seq<u8>, i: int, k: int)
    requires
        0 <= k <= i < s.len(),
        forall|j: int| 0 <= j < i ==> is_blank(#[trigger] s[j]),
    ensures
        scan_from(s, i - k, Lead::Plain, false, Seq::<int>::empty()) == scan_from(
            s,
            i,
            Lead::Plain,
            false,
            Seq::<int>::empty(),
        ),
    decreases k,
{
    if k > 0 {
        lemma_blanks_are_passed(s, i, k - 1);
        assert(is_blank(s[i - k]));
    }
}

/// Whether `b` is a blank byte.
pub fn blank(b: u8) -> (r: bool)
    ensures
        r == is_blank(b),
{
    b == 32 || b == 9 || b == 10 || b == 13
}

/// Whether `b` is a byte of a word.
pub fn word_byte(b: u8) -> (r: bool)
    ensures
        r == is_word_byte(b),
{
    (48 <= b && b <= 57) || (65 <= b && b <= 90) || (97 <= b && b <= 122) || b == 95 || b == 36
        || b >= 128
}

fn find_line_end(src: &[u8], from: usize) -> (r: usize)
    requires
        from <= src.len(),
    ensures
        r == line_end(src@, from as int),
        from <= r <= src.len(),
{
    let mut i: usize = from;
    while i < src.len() && src[i] != NEWLINE
        invariant
            from <= i <= src.len(),
            line_end(src@, from as int) == line_end(src@, i as int),
        decreases src.len() - i,
    {
        i += 1;
    }
    i
}

fn find_comment_end(src: &[u8], from: usize) -> (r: Option<usize>)
    requires
        from <= src.len(),
    ensures
        r is Some == comment_end(src@, from as int) is Some,
        r matches Some(j) ==> comment_end(src@, from as int) == Some(j as int) && from + 2 <= j
            <= src.len(),
{
    let mut i: usize = from;
    while i < src.len() && i + 1 < src.len()
        invariant
            from <= i <= src.len(),
            comment_end(src@, from as int) == comment_end(src@, i as int),
        decreases src.len() - i,
    {
        if src[i] == STAR && src[i + 1] == SLASH {
            return Some(i + 2);
        }
        i += 1;
    }
    None
}

fn find_literal_end(src: &[u8], from: usize, delimiter: u8, multiline: bool) -> (r: Option<usize>)
    requires
        from <= src.len(),
    ensures
        r is Some == literal_end(src@, from as int, delimiter, multiline) is Some,
        r matches Some(j) ==> literal_end(src@, from as int, delimiter, multiline) == Some(
            j as int,
        ) && from <= j < src.len(),
{
    let mut i: usize = from;
    while i < src.len()
        invariant
            from <= i <= src.len(),
            literal_end(src@, from as int, delimiter, multiline) == literal_end(
                src@,
                i as int,
                delimiter,
                multiline,
            ),
        decreases src.len() - i,
    {
        let b = src[i];
        if b == delimiter {
            return Some(i);
        } else if b == BACKSLASH {
            if i + 1 >= src.len() {
                return None;
            }
            i += 2;
        } else if !multiline && b == NEWLINE {
            return None;
        } else {
            i += 1;
        }
    }
    None
}

fn find_word_end(src: &[u8], from: usize) -> (r: usize)
    requires
        from <= src.len(),
    ensures
        r == word_end(src@, from as int),
        from <= r <= src.len(),
{
    let mut i: usize = from;
    while i < src.len() && word_byte(src[i])
        invariant
            from <= i <= src.len(),
            word_end(src@, from as int) == word_end(src@, i as int),
        decreases src.len() - i,
    {
        i += 1;
    }
    i
}

fn find_regex_end(src: &[u8], from: usize) -> (r: Option<usize>)
    requires
        from <= src.len(),
    ensures
        r is Some == regex_end(src@, from as int, false) is Some,
        r matches Some(j) ==> regex_end(src@, from as int, false) == Some(j as int) && from <= j
            < src.len(),
{
    let mut i: usize = from;
    let mut in_class = false;
    while i < src.len()
        invariant
            from <= i <= src.len(),
            regex_end(src@, from as int, false) == regex_end(src@, i as int, in_class),
        decreases src.len() - i,
    {
        let b = src[i];
        if b == NEWLINE || b == CARRIAGE_RETURN {
            return None;
        } else if b == BACKSLASH {
            if i + 1 >= src.len() {
                return None;
            }
            i += 2;
        } else if in_class {
            in_class = b != CLOSE_BRACKET;
            i += 1;
        } else if b == OPEN_BRACKET {
            in_class = true;
            i += 1;
        } else if b == SLASH {
            return Some(i);
        } else {
            i += 1;
        }
    }
    None
}

fn opens_expression(word: &[u8]) -> (r: bool)
    ensures
        r == expression_keywords().contains(word@),
{
    let k_return: [u8; 6] = [114u8, 101u8, 116u8, 117u8, 114u8, 110u8];
    let k_typeof: [u8; 6] = [116u8, 121u8, 112u8, 101u8, 111u8, 102u8];
    let k_instanceof: [u8; 10] = [105u8, 110u8, 115u8, 116u8, 97u8, 110u8, 99u8, 101u8, 111u8, 102u8];
    let k_in: [u8; 2] = [105u8, 110u8];
    let k_of: [u8; 2] = [111u8, 102u8];
    let k_new: [u8; 3] = [110u8, 101u8, 119u8];
    let k_delete: [u8; 6] = [100u8, 101u8, 108u8, 101u8, 116u8, 101u8];
    let k_void: [u8; 4] = [118u8, 111u8, 105u8, 100u8];
    let k_throw: [u8; 5] = [116u8, 104u8, 114u8, 111u8, 119u8];
    let k_case: [u8; 4] = [99u8, 97u8, 115u8, 101u8];
    let k_do: [u8; 2] = [100u8, 111u8];
    let k_else: [u8; 4] = [101u8, 108u8, 115u8, 101u8];
    let k_yield: [u8; 5] = [121u8, 105u8, 101u8, 108u8, 100u8];
    let k_await: [u8; 5] = [97u8, 119u8, 97u8, 105u8, 116u8];
    let ghost all = expression_keywords();
    assert(all[0] == k_return@ && all[1] == k_typeof@ && all[2] == k_instanceof@ && all[3]
        == k_in@ && all[4] == k_of@ && all[5] == k_new@ && all[6] == k_delete@);
    assert(all[7] == k_void@ && all[8] == k_throw@ && all[9] == k_case@ && all[10] == k_do@
        && all[11] == k_else@ && all[12] == k_yield@ && all[13] == k_await@);
    assert(all.len() == 14);
    bytes_eq(word, k_return.as_slice()) || bytes_eq(word, k_typeof.as_slice()) || bytes_eq(
        word,
        k_instanceof.as_slice(),
    ) || bytes_eq(word, k_in.as_slice()) || bytes_eq(word, k_of.as_slice()) || bytes_eq(
        word,
        k_new.as_slice(),
    ) || bytes_eq(word, k_delete.as_slice()) || bytes_eq(word, k_void.as_slice()) || bytes_eq(
        word,
        k_throw.as_slice(),
    ) || bytes_eq(word, k_case.as_slice()) || bytes_eq(word, k_do.as_slice()) || bytes_eq(
        word,
        k_else.as_slice(),
    ) || bytes_eq(word, k_yield.as_slice()) || bytes_eq(word, k_await.as_slice())
}

fn find_template_stop(src: &[u8], from: usize) -> (r: Option<usize>)
    requires
        from <= src.len(),
    ensures
        r is Some == template_stop(src@, from as int) is Some,
        r matches Some(j) ==> template_stop(src@, from as int) == Some(j as int) && from <= j
            < src.len() && (src@[j as int] == BACKTICK || j + 1 < src.len()),
{
    let mut i: usize = from;
    while i < src.len()
        invariant
            from <= i <= src.len(),
            template_stop(src@, from as int) == template_stop(src@, i as int),
        decreases src.len() - i,
    {
        let b = src[i];
        if b == BACKTICK {
            return Some(i);
        } else if b == DOLLAR && i + 1 < src.len() && src[i + 1] == OPEN_BRACE {
            return Some(i);
        } else if b == BACKSLASH {
            if i + 1 >= src.len() {
                return None;
            }
            i += 2;
        } else {
            i += 1;
        }
    }
    None
}

/// The offsets held in a vector.
pub open spec fn offsets(v: Seq<usize>) -> Seq<int> {
    Seq::new(v.len(), |k: int| v[k] as int)
}

/// The state of the reading after one element, in the running reader. The
/// open brackets are kept beside it.
struct Advance {
    next: usize,
    lead: Lead,
    operand: bool,
    found: Option<Span>,
}

impl Advance {
    spec fn is_move(&self, open: Seq<int>, m: Move) -> bool {
        &&& self.next == m.next
        &&& self.lead == m.lead
        &&& self.operand == m.operand
        &&& open == m.open
        &&& match self.found {
            Some(span) => m.found == Some(span@),
            None => m.found is None,
        }
    }
}

fn accepts_byte(lead: Lead, b: u8) -> (r: bool)
    ensures
        r == accepts(lead, b),
{
    match lead {
        Lead::Import => b == QUOTE || b == APOSTROPHE || b == OPEN_PAREN || b == DOT || b
            == COLON || b == OPEN_BRACE || b == STAR || word_byte(b),
        Lead::Clause => b == OPEN_BRACE || b == COMMA || b == STAR || word_byte(b),
        Lead::ClauseOpen => b == CLOSE_BRACE || b == COMMA || word_byte(b),
        Lead::FromOfImport => b == QUOTE || b == APOSTROPHE,
        _ => true,
    }
}

fn read_template(src: &[u8], from: usize, at: usize, stack: &mut Vec<usize>) -> (r: Result<
    Advance,
    ParseError,
>)
    requires
        from <= src.len(),
        forall|k: int| 0 <= k < old(stack)@.len() ==> old(stack)@[k] < src.len(),
    ensures
        forall|k: int| 0 <= k < final(stack)@.len() ==> final(stack)@[k] < src.len(),
        match (r, template_read(src@, from as int, at as int, offsets(old(stack)@))) {
            (Ok(a), Ok(m)) => a.is_move(offsets(final(stack)@), m),
            (Err(e), Err(f)) => e@ == f,
            _ => false,
        },
{
    match find_template_stop(src, from) {
        None => Err(ParseError { fault: Fault::UnterminatedTemplate, at }),
        Some(j) => {
            if src[j] == BACKTICK {
                Ok(Advance { next: j + 1, lead: Lead::Plain, operand: true, found: None })
            } else {
                let ghost before = offsets(stack@);
                stack.push(j);
                assert(offsets(stack@) == before.push(j as int));
                Ok(Advance { next: j + 2, lead: Lead::Plain, operand: false, found: None })
            }
        },
    }
}

fn read_word(src: &[u8], lead: Lead, i: usize, j: usize) -> (r: (Lead, bool))
    requires
        i <= j <= src.len(),
    ensures
        r.0 == lead_after_word(lead, src@, i as int, j as int),
        r.1 == operand_after_word(src@, i as int, j as int),
{
    let word = vstd::slice::slice_subrange(src, i, j);
    let w_import: [u8; 6] = [105u8, 109u8, 112u8, 111u8, 114u8, 116u8];
    let w_from: [u8; 4] = [102u8, 114u8, 111u8, 109u8];
    assert(w_import@ == word_import());
    assert(w_from@ == word_from());
    let property = i > 0 && src[i - 1] == DOT;
    let operand = property || !opens_expression(word);
    let is_from = bytes_eq(word, w_from.as_slice());
    let after = match lead {
        Lead::Import => Lead::Clause,
        Lead::Clause => if is_from {
            Lead::FromOfImport
        } else {
            Lead::Clause
        },
        Lead::ClauseOpen => Lead::ClauseOpen,
        _ => if property {
            Lead::Plain
        } else if bytes_eq(word, w_import.as_slice()) {
            Lead::Import
        } else if is_from {
            Lead::From
        } else {
            Lead::Plain
        },
    };
    (after, operand)
}

#[verifier::rlimit(60)]
fn read_element(src: &[u8], i: usize, lead: Lead, operand: bool, stack: &mut Vec<usize>) -> (r:
    Result<Advance, ParseError>)
    requires
        i < src.len(),
        forall|k: int| 0 <= k < old(stack)@.len() ==> old(stack)@[k] < src.len(),
    ensures
        forall|k: int| 0 <= k < final(stack)@.len() ==> final(stack)@[k] < src.len(),
        match (r, step(src@, i as int, lead, operand, offsets(old(stack)@))) {
            (Ok(a), Ok(m)) => a.is_move(offsets(final(stack)@), m),
            (Err(e), Err(f)) => e@ == f,
            _ => false,
        },
{
    let b = src[i];
    let ghost open = offsets(stack@);
    if blank(b) {
        Ok(Advance { next: i + 1, lead, operand, found: None })
    } else if b == SLASH && i + 1 < src.len() && src[i + 1] == SLASH {
        Ok(Advance { next: find_line_end(src, i + 2), lead, operand, found: None })
    } else if b == SLASH && i + 1 < src.len() && src[i + 1] == STAR {
        match find_comment_end(src, i + 2) {
            Some(j) => Ok(Advance { next: j, lead, operand, found: None }),
            None => Err(ParseError { fault: Fault::UnterminatedComment, at: i }),
        }
    } else if !accepts_byte(lead, b) {
        Err(ParseError { fault: Fault::MalformedImport, at: i })
    } else if b == SLASH {
        if operand {
            Ok(Advance { next: i + 1, lead: Lead::Plain, operand: false, found: None })
        } else {
            match find_regex_end(src, i + 1) {
                Some(j) => Ok(
                    Advance { next: j + 1, lead: Lead::Plain, operand: true, found: None },
                ),
                None => Ok(
                    Advance { next: i + 1, lead: Lead::Plain, operand: false, found: None },
                ),
            }
        }
    } else if b == QUOTE || b == APOSTROPHE {
        match find_literal_end(src, i + 1, b, false) {
            Some(j) => {
                let announced = lead == Lead::Import || lead == Lead::ImportCall || lead
                    == Lead::From || lead == Lead::FromOfImport;
                let found = if announced {
                    Some(Span { start: i + 1, end: j })
                } else {
                    None
                };
                Ok(Advance { next: j + 1, lead: Lead::Plain, operand: true, found })
            },
            None => Err(ParseError { fault: Fault::UnterminatedString, at: i }),
        }
    } else if b == BACKTICK {
        read_template(src, i + 1, i, stack)
    } else if word_byte(b) {
        let j = find_word_end(src, i);
        let after = read_word(src, lead, i, j);
        Ok(Advance { next: j, lead: after.0, operand: after.1, found: None })
    } else if b == OPEN_PAREN || b == OPEN_BRACKET || b == OPEN_BRACE {
        let after = if b == OPEN_PAREN && lead == Lead::Import {
            Lead::ImportCall
        } else if b == OPEN_BRACE && (lead == Lead::Import || lead == Lead::Clause) {
            Lead::ClauseOpen
        } else {
            Lead::Plain
        };
        stack.push(i);
        assert(offsets(stack@) == open.push(i as int));
        Ok(Advance { next: i + 1, lead: after, operand: false, found: None })
    } else if b == CLOSE_PAREN || b == CLOSE_BRACKET || b == CLOSE_BRACE {
        if stack.len() == 0 {
            return Err(ParseError { fault: Fault::UnbalancedBracket, at: i });
        }
        let top = stack[stack.len() - 1];
        assert(top as int == open.last());
        let opener = src[top];
        let wanted = if b == CLOSE_PAREN {
            OPEN_PAREN
        } else if b == CLOSE_BRACKET {
            OPEN_BRACKET
        } else {
            OPEN_BRACE
        };
        if b == CLOSE_BRACE && opener == DOLLAR {
            stack.pop();
            assert(offsets(stack@) == open.drop_last());
            read_template(src, i + 1, i, stack)
        } else if opener == wanted {
            stack.pop();
            assert(offsets(stack@) == open.drop_last());
            let after = if lead == Lead::ClauseOpen {
                Lead::Clause
            } else {
                Lead::Plain
            };
            Ok(Advance { next: i + 1, lead: after, operand: b != CLOSE_BRACE, found: None })
        } else {
            Err(ParseError { fault: Fault::UnbalancedBracket, at: i })
        }
    } else if (b == PLUS || b == MINUS) && i + 1 < src.len() && src[i + 1] == b {
        Ok(Advance { next: i + 2, lead: Lead::Plain, operand, found: None })
    } else {
        let after = if lead == Lead::Clause || lead == Lead::ClauseOpen {
            lead
        } else if lead == Lead::Import && b == STAR {
            Lead::Clause
        } else {
            Lead::Plain
        };
        Ok(Advance { next: i + 1, lead: after, operand: false, found: None })
    }
}

/// A copy of a verdict.
pub fn copy_verdict(parsed: &Verdict) -> (r: Verdict)
    ensures
        verdict_view(r) == verdict_view(*parsed),
{
    match parsed {
        Ok(spans) => {
            let mut out: Vec<Span> = Vec::new();
            let mut i: usize = 0;
            while i < spans.len()
                invariant
                    i <= spans.len(),
                    out@ == spans@.take(i as int),
                decreases spans.len() - i,
            {
                out.push(spans[i]);
                assert(spans@.take(i + 1) == spans@.take(i as int).push(spans@[i as int]));
                i += 1;
            }
            assert(spans@.take(spans.len() as int) == spans@);
            Ok(out)
        },
        Err(e) => Err(*e),
    }
}

/// `found` and then whatever `rest` holds.
pub open spec fn found_then(
    found: Seq<(int, int)>,
    rest: Result<Seq<(int, int)>, (Fault, int)>,
) -> Result<Seq<(int, int)>, (Fault, int)> {
    match rest {
        Ok(spans) => Ok(found + spans),
        Err(e) => Err(e),
    }
}

/// Reads `src` by its lexical elements and finds the module specifiers in
/// the order of the text. Fails with the first error that this reading
/// sees: an element that does not end, a bracket without its partner, or a
/// malformed import declaration. Any other error of syntax is for a parser
/// of the whole language to find: a caller that has one hands its verdict
/// to the compiler instead.
pub fn scan(src: &[u8]) -> (r: Verdict)
    ensures
        verdict_view(r) == specifiers(src@),
        r matches Ok(v) ==> fits(src@, span_views(v@)),
        r matches Err(e) ==> e.fault != Fault::Syntax,
{
    let mut found: Vec<Span> = Vec::new();
    let mut stack: Vec<usize> = Vec::new();
    let mut lead = Lead::Plain;
    let mut operand = false;
    let mut i: usize = 0;
    assert(offsets(stack@) == Seq::<int>::empty());
    assert(found_then(span_views(found@), specifiers(src@)) == specifiers(src@)) by {
        if let Ok(spans) = specifiers(src@) {
            assert(span_views(found@) + spans == spans);
        }
    }
    while i < src.len()
        invariant
            i <= src.len(),
            forall|k: int| 0 <= k < stack@.len() ==> stack@[k] < src.len(),
            specifiers(src@) == found_then(
                span_views(found@),
                scan_from(src@, i as int, lead, operand, offsets(stack@)),
            ),
        decreases src.len() - i,
    {
        proof {
            lemma_step(src@, i as int, lead, operand, offsets(stack@));
        }
        match read_element(src, i, lead, operand, &mut stack) {
            Err(e) => {
                assert(e.fault != Fault::Syntax);
                return Err(e);
            },
            Ok(a) => {
                match a.found {
                    Some(span) => {
                        let ghost before = span_views(found@);
                        found.push(span);
                        proof {
                            assert(span_views(found@) == before.push(span@));
                            let rest = scan_from(
                                src@,
                                a.next as int,
                                a.lead,
                                a.operand,
                                offsets(stack@),
                            );
                            if let Ok(spans) = rest {
                                assert(before + (seq![span@] + spans) == before.push(span@)
                                    + spans);
                            }
                        }
                    },
                    None => {},
                }
                lead = a.lead;
                operand = a.operand;
                i = a.next;
            },
        }
    }
    if lead == Lead::Import || lead == Lead::Clause || lead == Lead::ClauseOpen || lead
        == Lead::FromOfImport {
        return Err(ParseError { fault: Fault::MalformedImport, at: src.len() });
    }
    if stack.len() > 0 {
        let at = stack[stack.len() - 1];
        assert(at as int == offsets(stack@).last());
        return Err(ParseError { fault: Fault::UnclosedBracket, at });
    }
    proof {
        assert(span_views(found@) + Seq::<(int, int)>::empty() == span_views(found@));
        lemma_specifiers_in_order(src@);
    }
    Ok(found)
}

} // verus!
