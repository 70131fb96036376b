//! The text of diagnostics: for each error the place and the cause.

use vstd::prelude::*;
use vstd::string::StringSliceAdditionalSpecFns;
use crate::compile::{CompileError, CompileErrorView};
use crate::orchestrator::{BuildError, BuildErrorView};
use crate::output::{CompileFilesError, CompileFilesErrorView};
use crate::scan::Fault;
use crate::text::append;

verus! {

/// The decimal digits of `n`.
pub open spec fn digits(n: nat) -> Seq<u8>
    decreases n,
{
    if n < 10 {
        seq![(48 + n) as u8]
    } else {
        digits(n / 10).push((48 + n % 10) as u8)
    }
}

/// The name of a fault.
pub open spec fn fault_text(fault: Fault) -> Seq<u8> {
    match fault {
        Fault::UnterminatedComment => "unterminated block comment".spec_bytes(),
        Fault::UnterminatedString => "unterminated string literal".spec_bytes(),
        Fault::UnterminatedTemplate => "unterminated template literal".spec_bytes(),
        Fault::UnbalancedBracket => "unbalanced bracket".spec_bytes(),
        Fault::UnclosedBracket => "unclosed bracket".spec_bytes(),
        Fault::MalformedImport => "malformed import".spec_bytes(),
        Fault::Syntax => "syntax error".spec_bytes(),
    }
}

/// `text` between backticks.
pub open spec fn ticked(text: Seq<u8>) -> Seq<u8> {
    seq![96u8] + text + seq![96u8]
}

/// The diagnostic for a module that does not compile: the cause and the
/// module, and for an unresolved dependency the specifier.
pub open spec fn compile_message(e: CompileErrorView) -> Seq<u8> {
    match e {
        CompileErrorView::Parse { module, fault, at } => fault_text(fault) + " at byte ".spec_bytes()
            + digits(at as nat) + " in module ".spec_bytes() + ticked(module),
        CompileErrorView::Unresolved { module, specifier } => "unresolved specifier ".spec_bytes()
            + ticked(specifier) + " in module ".spec_bytes() + ticked(module),
        CompileErrorView::UnknownSource { module } => "no source is registered as ".spec_bytes()
            + ticked(module),
        CompileErrorView::Misplaced { module } => "the specifiers do not fit the text of module ".spec_bytes()
            + ticked(module),
    }
}

/// The diagnostic for sources that do not compile.
pub open spec fn files_message(e: CompileFilesErrorView) -> Seq<u8> {
    match e {
        CompileFilesErrorView::OutsideProject { path } => ticked(path)
            + " does not lie in the project".spec_bytes(),
        CompileFilesErrorView::Compile(e) => compile_message(e),
    }
}

/// The diagnostic for an aborted build: what failed, and at which path;
/// for an import map that cannot be parsed also the text that was read.
pub open spec fn build_message(e: BuildErrorView) -> Seq<u8> {
    match e {
        BuildErrorView::CreateDir { path } => "failed to create the directory ".spec_bytes()
            + ticked(path),
        BuildErrorView::ReadImportMap { path } => "failed to read the import map from ".spec_bytes()
            + ticked(path),
        BuildErrorView::ParseImportMap { path, content } =>
            "failed to parse the import map at ".spec_bytes() + ticked(path)
                + " from the content ".spec_bytes() + ticked(content),
        BuildErrorView::ReadSource { path } => "failed to read the source ".spec_bytes() + ticked(
            path,
        ),
        BuildErrorView::Sources(e) => files_message(e),
        BuildErrorView::WriteArtifact { path } => "failed to write the artifact ".spec_bytes()
            + ticked(path),
        BuildErrorView::UnexpectedEvent => "an event was reported out of turn".spec_bytes(),
    }
}

/// Writes `n` in decimal digits.
pub fn decimal(n: usize) -> (r: Vec<u8>)
    ensures
        r@ == digits(n as nat),
    decreases n,
{
    if n < 10 {
        let mut out: Vec<u8> = Vec::new();
        out.push(48u8 + n as u8);
        assert(out@ == seq![(48 + n) as u8]);
        out
    } else {
        let mut out = decimal(n / 10);
        out.push(48u8 + (n % 10) as u8);
        out
    }
}

fn append_ticked(out: &mut Vec<u8>, text: &[u8])
    ensures
        final(out)@ == old(out)@ + ticked(text@),
{
    let ghost before = out@;
    out.push(96u8);
    append(out, text);
    out.push(96u8);
    assert(out@ == before + (seq![96u8] + text@ + seq![96u8]));
}

/// Starts a diagnostic with `lead` and the `text` between backticks.
fn lead_and_ticked(lead: &str, text: &[u8]) -> (r: Vec<u8>)
    ensures
        r@ == lead.spec_bytes() + ticked(text@),
{
    let mut out: Vec<u8> = Vec::new();
    append(&mut out, lead.as_bytes());
    append_ticked(&mut out, text);
    out
}

impl CompileError {
    /// The diagnostic for this error.
    pub fn message(&self) -> (r: Vec<u8>)
        ensures
            r@ == compile_message(self@),
    {
        match self {
            CompileError::Parse { module, fault, at } => {
                let mut out: Vec<u8> = Vec::new();
                match fault {
                    Fault::UnterminatedComment => {
                        append(&mut out, "unterminated block comment".as_bytes());
                    },
                    Fault::UnterminatedString => {
                        append(&mut out, "unterminated string literal".as_bytes());
                    },
                    Fault::UnterminatedTemplate => {
                        append(&mut out, "unterminated template literal".as_bytes());
                    },
                    Fault::UnbalancedBracket => {
                        append(&mut out, "unbalanced bracket".as_bytes());
                    },
                    Fault::UnclosedBracket => {
                        append(&mut out, "unclosed bracket".as_bytes());
                    },
                    Fault::MalformedImport => {
                        append(&mut out, "malformed import".as_bytes());
                    },
                    Fault::Syntax => {
                        append(&mut out, "syntax error".as_bytes());
                    },
                }
                append(&mut out, " at byte ".as_bytes());
                let number = decimal(*at);
                append(&mut out, number.as_slice());
                append(&mut out, " in module ".as_bytes());
                append_ticked(&mut out, module.as_slice());
                out
            },
            CompileError::Unresolved { module, specifier } => {
                let mut out = lead_and_ticked("unresolved specifier ", specifier.as_slice());
                append(&mut out, " in module ".as_bytes());
                append_ticked(&mut out, module.as_slice());
                out
            },
            CompileError::UnknownSource { module } => lead_and_ticked(
                "no source is registered as ",
                module.as_slice(),
            ),
            CompileError::Misplaced { module } => lead_and_ticked(
                "the specifiers do not fit the text of module ",
                module.as_slice(),
            ),
        }
    }
}

impl CompileFilesError {
    /// The diagnostic for this error.
    pub fn message(&self) -> (r: Vec<u8>)
        ensures
            r@ == files_message(self@),
    {
        match self {
            CompileFilesError::OutsideProject { path } => {
                let mut out: Vec<u8> = Vec::new();
                append_ticked(&mut out, path.as_slice());
                append(&mut out, " does not lie in the project".as_bytes());
                assert(Seq::<u8>::empty() + ticked(path@) == ticked(path@));
                out
            },
            CompileFilesError::Compile(e) => e.message(),
        }
    }
}

impl BuildError {
    /// The diagnostic for this error.
    pub fn message(&self) -> (r: Vec<u8>)
        ensures
            r@ == build_message(self@),
    {
        match self {
            BuildError::CreateDir { path } => lead_and_ticked(
                "failed to create the directory ",
                path.as_slice(),
            ),
            BuildError::ReadImportMap { path } => lead_and_ticked(
                "failed to read the import map from ",
                path.as_slice(),
            ),
            BuildError::ParseImportMap { path, content } => {
                let mut out = lead_and_ticked("failed to parse the import map at ", path.as_slice());
                append(&mut out, " from the content ".as_bytes());
                append_ticked(&mut out, content.as_slice());
                out
            },
            BuildError::ReadSource { path } => lead_and_ticked(
                "failed to read the source ",
                path.as_slice(),
            ),
            BuildError::Sources(e) => e.message(),
            BuildError::WriteArtifact { path } => lead_and_ticked(
                "failed to write the artifact ",
                path.as_slice(),
            ),
            BuildError::UnexpectedEvent => {
                let mut out: Vec<u8> = Vec::new();
                append(&mut out, "an event was reported out of turn".as_bytes());
                out
            },
        }
    }
}

} // verus!
