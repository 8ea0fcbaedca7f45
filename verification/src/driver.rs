//! The decisions of a compilation run: which command-line files are
//! sources, how a parse ends, and whether the run succeeded.
use vstd::prelude::*;
use vstd::string::StringExecFns;
use crate::diag::{count_level, views, Diag, DiagCtx, ErrorGuaranteed, Level};
use crate::lexer::error::InternalLexerError;
use crate::lexer::report::{error_views, lexes_to};
use crate::lexer::stream::EtaLexer;
use crate::lexer::tokens::SourceToken;
use crate::parse::Parsed;
use crate::text::push_str;

verus! {

/// The command line: which dumps to write, where, and the files to compile.
#[derive(Debug, Clone)]
pub struct Flags {
    pub lex: bool,
    pub parse: bool,
    pub diag_path: String,
    pub source_path: String,
    pub lib_path: String,
    pub source_files: Vec<String>,
}

/// A run that reported errors.
#[derive(Debug, Clone, Copy, PartialEq, Eq, Structural)]
pub struct CompilationFailure {
    pub errors: usize,
    pub warnings: usize,
}

/// A run that reported no error.
#[derive(Debug, Clone, Copy, PartialEq, Eq, Structural)]
pub struct CompilationSuccess {
    pub warnings: usize,
}

/// How the run ends: it fails exactly when an error was reported, and it
/// reports the numbers of errors and warnings.
pub fn outcome(dcx: &DiagCtx) -> (r: Result<CompilationSuccess, CompilationFailure>)
    requires
        dcx.wf(),
    ensures
        r is Err <==> count_level(dcx@, Level::Error) > 0,
        r matches Ok(s) ==> s.warnings == count_level(dcx@, Level::Warning),
        r matches Err(f) ==> f.errors == count_level(dcx@, Level::Error) && f.warnings == count_level(
            dcx@,
            Level::Warning,
        ),
{
    if dcx.has_errors() {
        Err(CompilationFailure { errors: dcx.err_count(), warnings: dcx.warn_count() })
    } else {
        Ok(CompilationSuccess { warnings: dcx.warn_count() })
    }
}

/// The kinds of file named on the command line.
#[derive(Debug, Clone, Copy, PartialEq, Eq, Structural)]
pub enum SourceKind {
    Program,
    Interface,
}

pub open spec fn unknown_file_type(ext: Seq<char>, path: Seq<char>) -> Seq<char> {
    "unknown file type `"@ + ext + "` for "@ + path
}

pub open spec fn ext_view(ext: Option<&str>) -> Seq<char> {
    match ext {
        Some(e) => e@,
        None => Seq::empty(),
    }
}

/// The kind a file extension stands for, if any.
pub open spec fn kind_of_ext(ext: Option<&str>) -> Option<SourceKind> {
    match ext {
        Some(e) => if e@ == "eta"@ {
            Some(SourceKind::Program)
        } else if e@ == "eti"@ {
            Some(SourceKind::Interface)
        } else {
            None
        },
        None => None,
    }
}

/// The kind of a file by its extension: `eta` is a program, `eti` an
/// interface; any other extension, or none, is refused with a message.
pub fn source_kind(ext: Option<&str>, path: &str) -> (r: Result<SourceKind, String>)
    ensures
        match kind_of_ext(ext) {
            Some(k) => r == Ok::<SourceKind, String>(k),
            None => (r matches Err(m) && m@ == unknown_file_type(ext_view(ext), path@)),
        },
{
    match ext {
        Some(e) => {
            let s = String::from_str(e);
            if s == String::from_str("eta") {
                return Ok(SourceKind::Program);
            }
            if s == String::from_str("eti") {
                return Ok(SourceKind::Interface);
            }
            let mut m = String::from_str("unknown file type `");
            push_str(&mut m, e);
            push_str(&mut m, "` for ");
            push_str(&mut m, path);
            Err(m)
        },
        None => {
            let mut m = String::from_str("unknown file type `");
            push_str(&mut m, "` for ");
            push_str(&mut m, path);
            proof {
                assert(m@ =~= unknown_file_type(Seq::<char>::empty(), path@));
            }
            Err(m)
        },
    }
}

pub open spec fn diagnostics_of(s: Seq<Diag>) -> Seq<crate::diag::Diagnostic> {
    s.map_values(|d: Diag| d.diagnostic())
}

/// Ends the parse of one file, whose lexer `lexer` stands where the parser
/// left it. A clean tree is kept and the parser's other messages are
/// dropped; a recovered tree is kept and every diagnostic is recorded; a
/// failed parse records every diagnostic, then reads the lexer to its end so
/// that the lexical errors after the failure are recorded too, and yields
/// the proof that an error was reported. A parse that did not end cleanly
/// has at least one diagnostic.
pub fn settle_parse<Out>(parsed: Parsed<Out>, errs: Vec<Diag>, lexer: &mut EtaLexer, dcx: &mut DiagCtx) -> (r: Result<
    Out,
    ErrorGuaranteed,
>)
    requires
        old(dcx).wf(),
        old(lexer).wf(),
        !(parsed is Clean) ==> errs@.len() > 0,
    ensures
        final(dcx).wf(),
        final(dcx).is_pending() == old(dcx).is_pending(),
        match parsed {
            Parsed::Clean(t) => r == Ok::<Out, ErrorGuaranteed>(t) && final(dcx)@ == old(dcx)@ && *final(lexer)
                == *old(lexer),
            Parsed::Recovered(t) => r == Ok::<Out, ErrorGuaranteed>(t) && final(dcx)@ == old(dcx)@
                + diagnostics_of(errs@) && *final(lexer) == *old(lexer),
            Parsed::Failed => {
                &&& r is Err
                &&& final(dcx)@.len() >= old(dcx)@.len() + errs@.len()
                &&& final(dcx)@.take((old(dcx)@.len() + errs@.len()) as int) == old(dcx)@ + diagnostics_of(errs@)
                &&& final(lexer).position() == old(lexer).source().len()
                &&& exists|items: Seq<Result<SourceToken, InternalLexerError>>|
                    lexes_to(old(lexer).source(), old(lexer).base(), old(lexer).position(), items)
                        && #[trigger] error_views(items) == views(
                        final(dcx)@.skip((old(dcx)@.len() + errs@.len()) as int),
                    )
            },
        },
{
    match parsed {
        Parsed::Clean(t) => Ok(t),
        Parsed::Recovered(t) => {
            let _g = finish_all(errs, dcx);
            Ok(t)
        },
        Parsed::Failed => {
            let ghost n = errs@.len();
            let g = finish_all(errs, dcx);
            let ghost mid = dcx@;
            lexer.drain_reported(dcx);
            proof {
                assert(dcx@.take(mid.len() as int) == mid);
            }
            Err(g)
        },
    }
}

/// Records every diagnostic of `errs` in order.
fn finish_all(errs: Vec<Diag>, dcx: &mut DiagCtx) -> (g: ErrorGuaranteed)
    requires
        old(dcx).wf(),
        errs@.len() > 0,
    ensures
        final(dcx).wf(),
        final(dcx).is_pending() == old(dcx).is_pending(),
        final(dcx)@ == old(dcx)@ + diagnostics_of(errs@),
{
    let ghost all = errs@;
    let n = errs.len();
    let mut rest = errs;
    let mut k: usize = 0;
    let first = rest.remove(0);
    let mut g = first.finish(dcx);
    k = 1;
    proof {
        assert(dcx@ =~= old(dcx)@ + diagnostics_of(all.take(1)));
    }
    while rest.len() > 0
        invariant
            rest@ == all.skip(k as int),
            1 <= k <= all.len(),
            all.len() == n,
            dcx.wf(),
            dcx.is_pending() == old(dcx).is_pending(),
            dcx@ == old(dcx)@ + diagnostics_of(all.take(k as int)),
        decreases rest.len(),
    {
        let d = rest.remove(0);
        proof {
            assert(d == all[k as int]);
        }
        g = d.finish(dcx);
        proof {
            assert(all.take(k + 1) =~= all.take(k as int).push(all[k as int]));
            assert(dcx@ =~= old(dcx)@ + diagnostics_of(all.take(k + 1)));
        }
        k += 1;
        proof {
            assert(rest@ =~= all.skip(k as int));
        }
    }
    proof {
        assert(all.take(k as int) =~= all);
    }
    g
}

} // verus!
