//! Compiler diagnostics: what a diagnostic holds, the builder that collects
//! its parts, and the context that records finished diagnostics and counts
//! errors and warnings. Rendering them is left to the caller.
use vstd::prelude::*;
use crate::span::Span;
use elsa::sync::FrozenVec;

pub mod no_file;

verus! {

/// Severity of a diagnostic.
#[derive(Clone, Copy, PartialEq, Eq, Structural, Debug)]
pub enum Level {
    Error,
    Warning,
    Note,
}

/// Colour of a label: red marks the diagnostic's own place, yellow another.
#[derive(Clone, Copy, PartialEq, Eq, Structural, Debug)]
pub enum LabelColor {
    Red,
    Yellow,
}

/// A finished diagnostic.
#[derive(Debug)]
pub struct Diagnostic {
    pub level: Level,
    pub message: String,
    pub loc: Option<Span>,
    pub labels: Vec<(Span, String, LabelColor)>,
    pub code: Option<String>,
    pub note: Option<String>,
}

/// Marks a value that must be dealt with before it goes away: armed when
/// made, disarmed by [`DropBomb::defuse`].
#[derive(Debug)]
pub struct DropBomb {
    armed: bool,
}

impl DropBomb {
    pub closed spec fn is_armed(self) -> bool {
        self.armed
    }

    pub fn new() -> (b: DropBomb)
        ensures
            b.is_armed(),
    {
        DropBomb { armed: true }
    }

    pub fn defuse(&mut self)
        ensures
            !final(self).is_armed(),
    {
        self.armed = false;
    }

    pub fn armed(&self) -> (b: bool)
        ensures
            b == self.is_armed(),
    {
        self.armed
    }
}

/// Proof that an error was reported: [`Diag::finish`] makes one, and a
/// phase that meets a region the parser already reported may claim one.
#[derive(Debug)]
pub struct ErrorGuaranteed {
    reported: (),
}

impl ErrorGuaranteed {
    /// For a failure whose diagnostic was recorded earlier.
    pub(crate) fn already_reported() -> ErrorGuaranteed {
        ErrorGuaranteed { reported: () }
    }
}

/// A diagnostic under construction. It is armed until it is finished into a
/// [`DiagCtx`] or deliberately cancelled.
#[derive(Debug)]
pub struct Diag {
    diagnostic: Diagnostic,
    bomb: DropBomb,
}

// ---- the outside append-only vector that holds finished diagnostics ----

#[verifier::external_type_specification]
#[verifier::external_body]
#[verifier::reject_recursive_types(T)]
pub struct ExFrozenVec<T>(FrozenVec<T>);

/// The diagnostics that a `FrozenVec` holds, in the order they were pushed.
pub uninterp spec fn frozen_diagnostics(v: FrozenVec<Box<Diagnostic>>) -> Seq<Diagnostic>;

/// Wraps `FrozenVec::new`: an empty vector.
#[verifier::external_body]
fn frozen_new() -> (v: FrozenVec<Box<Diagnostic>>)
    ensures
        frozen_diagnostics(v) == Seq::<Diagnostic>::empty(),
{
    FrozenVec::new()
}

/// Wraps `FrozenVec::push`: `d` is appended after what the vector held. The
/// vector is a `Vec` behind a lock, so its length fits in `usize`. (`push`
/// panics only when the lock was poisoned by a panic inside an earlier
/// push; this is not stated.)
#[verifier::external_body]
fn frozen_push(v: &mut FrozenVec<Box<Diagnostic>>, d: Diagnostic)
    ensures
        frozen_diagnostics(*final(v)) == frozen_diagnostics(*old(v)).push(d),
        frozen_diagnostics(*final(v)).len() <= usize::MAX,
{
    v.push(Box::new(d));
}

/// Wraps `FrozenVec::into_vec`: the backing vector, in push order.
#[verifier::external_body]
fn frozen_into_vec(v: FrozenVec<Box<Diagnostic>>) -> (r: Vec<Box<Diagnostic>>)
    ensures
        r@.len() == frozen_diagnostics(v).len(),
        forall|i: int| 0 <= i < r@.len() ==> *#[trigger] r@[i] == frozen_diagnostics(v)[i],
{
    v.into_vec()
}

// ---- counting ----

/// How many diagnostics of `s` have level `l`.
pub open spec fn count_level(s: Seq<Diagnostic>, l: Level) -> nat
    decreases s.len(),
{
    if s.len() == 0 {
        0
    } else {
        count_level(s.drop_last(), l) + if s.last().level == l {
            1nat
        } else {
            0nat
        }
    }
}

pub proof fn lemma_count_level_bound(s: Seq<Diagnostic>, l: Level)
    ensures
        count_level(s, l) <= s.len(),
    decreases s.len(),
{
    if s.len() > 0 {
        lemma_count_level_bound(s.drop_last(), l);
    }
}

/// Collects finished diagnostics and counts errors and warnings.
#[derive(Debug)]
pub struct DiagCtx {
    diagnostics: FrozenVec<Box<Diagnostic>>,
    err_count: usize,
    warn_count: usize,
    bomb: DropBomb,
}

/// The views of a sequence of diagnostics, in order.
pub open spec fn views(s: Seq<Diagnostic>) -> Seq<DiagnosticView> {
    s.map_values(|d: Diagnostic| d@)
}

impl View for DiagCtx {
    type V = Seq<Diagnostic>;

    closed spec fn view(&self) -> Seq<Diagnostic> {
        frozen_diagnostics(self.diagnostics)
    }
}

impl DiagCtx {
    /// The counters agree with the recorded diagnostics.
    pub closed spec fn wf(self) -> bool {
        &&& self.err_count == count_level(self@, Level::Error)
        &&& self.warn_count == count_level(self@, Level::Warning)
        &&& self@.len() <= usize::MAX
    }

    /// The context still has to hand its diagnostics on.
    pub closed spec fn is_pending(self) -> bool {
        self.bomb.is_armed()
    }

    pub fn new() -> (d: DiagCtx)
        ensures
            d.wf(),
            d@ == Seq::<Diagnostic>::empty(),
            d.is_pending(),
    {
        DiagCtx { diagnostics: frozen_new(), err_count: 0, warn_count: 0, bomb: DropBomb::new() }
    }

    /// Starts an error at `span`.
    pub fn err(&self, span: Span, msg: String) -> (d: Diag)
        ensures
            d@ == Diag::fresh(Level::Error, Some(span), msg@),
            d.is_armed(),
    {
        Diag::new(Level::Error, span, msg)
    }

    /// Starts an error with no location.
    pub fn err_no_span(&self, msg: String) -> (d: Diag)
        ensures
            d@ == Diag::fresh(Level::Error, None, msg@),
            d.is_armed(),
    {
        Diag::new_no_span(Level::Error, msg)
    }

    /// Starts a warning at `span`.
    pub fn warn(&self, span: Span, msg: String) -> (d: Diag)
        ensures
            d@ == Diag::fresh(Level::Warning, Some(span), msg@),
            d.is_armed(),
    {
        Diag::new(Level::Warning, span, msg)
    }

    /// Number of errors recorded.
    pub fn err_count(&self) -> (n: usize)
        requires
            self.wf(),
        ensures
            n == count_level(self@, Level::Error),
    {
        self.err_count
    }

    /// Number of warnings recorded.
    pub fn warn_count(&self) -> (n: usize)
        requires
            self.wf(),
        ensures
            n == count_level(self@, Level::Warning),
    {
        self.warn_count
    }

    pub fn has_errors(&self) -> (b: bool)
        requires
            self.wf(),
        ensures
            b == (count_level(self@, Level::Error) > 0),
    {
        self.err_count > 0
    }

    /// Hands the recorded diagnostics on, in the order they were finished, to
    /// be rendered.
    pub fn into_diagnostics(self) -> (r: Vec<Box<Diagnostic>>)
        ensures
            r@.len() == self@.len(),
            forall|i: int| 0 <= i < r@.len() ==> *#[trigger] r@[i] == self@[i],
    {
        let DiagCtx { diagnostics, err_count: _, warn_count: _, mut bomb } = self;
        bomb.defuse();
        frozen_into_vec(diagnostics)
    }

    /// Drops the recorded diagnostics deliberately.
    pub fn cancel(self) {
        let DiagCtx { diagnostics: _, err_count: _, warn_count: _, mut bomb } = self;
        bomb.defuse();
    }
}

/// What a diagnostic holds, as plain values.
pub struct DiagnosticView {
    pub level: Level,
    pub message: Seq<char>,
    pub loc: Option<Span>,
    pub labels: Seq<(Span, Seq<char>, LabelColor)>,
    pub code: Option<Seq<char>>,
    pub note: Option<Seq<char>>,
}

pub open spec fn opt_view(s: Option<String>) -> Option<Seq<char>> {
    match s {
        Some(t) => Some(t@),
        None => None,
    }
}

impl View for Diagnostic {
    type V = DiagnosticView;

    open spec fn view(&self) -> DiagnosticView {
        DiagnosticView {
            level: self.level,
            message: self.message@,
            loc: self.loc,
            labels: self.labels@.map_values(|l: (Span, String, LabelColor)| (l.0, l.1@, l.2)),
            code: opt_view(self.code),
            note: opt_view(self.note),
        }
    }
}

impl Diagnostic {
    /// A diagnostic at `span` with a message and nothing else.
    pub fn new(level: Level, span: Span, message: String) -> (d: Diagnostic)
        ensures
            d@ == Diag::fresh(level, Some(span), message@),
    {
        let d = Diagnostic { level, message, loc: Some(span), labels: Vec::new(), code: None, note: None };
        proof {
            assert(d@.labels =~= Seq::<(Span, Seq<char>, LabelColor)>::empty());
        }
        d
    }

    /// A diagnostic with no location.
    pub fn new_no_loc(level: Level, message: String) -> (d: Diagnostic)
        ensures
            d@ == Diag::fresh(level, None, message@),
    {
        let d = Diagnostic { level, message, loc: None, labels: Vec::new(), code: None, note: None };
        proof {
            assert(d@.labels =~= Seq::<(Span, Seq<char>, LabelColor)>::empty());
        }
        d
    }

    /// Sets the code.
    pub fn with_code(self, code: String) -> (d: Diagnostic)
        ensures
            d@ == (DiagnosticView { code: Some(code@), ..self@ }),
    {
        let mut d = self;
        d.code = Some(code);
        d
    }

    /// Points a red label with `message` at the diagnostic's own place; only
    /// a diagnostic with a place can have one.
    pub fn with_primary_label(self, message: String) -> (d: Diagnostic)
        requires
            self@.loc is Some,
        ensures
            d@ == (DiagnosticView {
                labels: self@.labels.push((self@.loc.unwrap(), message@, LabelColor::Red)),
                ..self@
            }),
    {
        let mut d = self;
        let loc = d.loc.unwrap();
        d.labels.push((loc, message, LabelColor::Red));
        proof {
            assert(d@.labels =~= self@.labels.push((self@.loc.unwrap(), message@, LabelColor::Red)));
        }
        d
    }

    /// Adds a yellow label with `message` at another place.
    pub fn with_secondary_label(self, span: Span, message: String) -> (d: Diagnostic)
        ensures
            d@ == (DiagnosticView { labels: self@.labels.push((span, message@, LabelColor::Yellow)), ..self@ }),
    {
        let mut d = self;
        d.labels.push((span, message, LabelColor::Yellow));
        proof {
            assert(d@.labels =~= self@.labels.push((span, message@, LabelColor::Yellow)));
        }
        d
    }

    /// Sets the note.
    pub fn with_note(self, note: String) -> (d: Diagnostic)
        ensures
            d@ == (DiagnosticView { note: Some(note@), ..self@ }),
    {
        let mut d = self;
        d.note = Some(note);
        d
    }
}

impl View for Diag {
    type V = DiagnosticView;

    closed spec fn view(&self) -> DiagnosticView {
        self.diagnostic@
    }
}

impl Diag {
    /// A diagnostic with a level, a place and a message, and nothing else.
    pub open spec fn fresh(level: Level, loc: Option<Span>, message: Seq<char>) -> DiagnosticView {
        DiagnosticView { level, message, loc, labels: Seq::empty(), code: None, note: None }
    }

    pub closed spec fn is_armed(self) -> bool {
        self.bomb.is_armed()
    }

    /// The diagnostic that finishing this builder records.
    pub closed spec fn diagnostic(self) -> Diagnostic {
        self.diagnostic
    }

    pub proof fn lemma_view(self)
        ensures
            self.diagnostic()@ == self@,
    {
    }

    /// A diagnostic at `span`.
    pub fn new(level: Level, span: Span, message: String) -> (d: Diag)
        ensures
            d@ == Diag::fresh(level, Some(span), message@),
            d.is_armed(),
    {
        Diag { diagnostic: Diagnostic::new(level, span, message), bomb: DropBomb::new() }
    }

    /// A diagnostic with no location.
    pub fn new_no_span(level: Level, message: String) -> (d: Diag)
        ensures
            d@ == Diag::fresh(level, None, message@),
            d.is_armed(),
    {
        Diag { diagnostic: Diagnostic::new_no_loc(level, message), bomb: DropBomb::new() }
    }

    /// The severity.
    pub fn level(&self) -> (l: Level)
        ensures
            l == self@.level,
    {
        self.diagnostic.level
    }

    /// The headline.
    pub fn message(&self) -> (m: &str)
        ensures
            m@ == self@.message,
    {
        self.diagnostic.message.as_str()
    }

    /// The place, if there is one.
    pub fn loc(&self) -> (l: Option<Span>)
        ensures
            l == self@.loc,
    {
        self.diagnostic.loc
    }

    /// Points a red label with `msg` at the diagnostic's own place; only a
    /// diagnostic with a place can have one.
    pub fn with_primary_label(self, msg: String) -> (d: Diag)
        requires
            self@.loc is Some,
        ensures
            d@ == (DiagnosticView {
                labels: self@.labels.push((self@.loc.unwrap(), msg@, LabelColor::Red)),
                ..self@
            }),
            d.is_armed() == self.is_armed(),
    {
        let Diag { diagnostic, bomb } = self;
        Diag { diagnostic: diagnostic.with_primary_label(msg), bomb }
    }

    /// Adds a yellow label with `msg` at another place.
    pub fn with_secondary_label(self, span: Span, msg: String) -> (d: Diag)
        ensures
            d@ == (DiagnosticView {
                labels: self@.labels.push((span, msg@, LabelColor::Yellow)),
                ..self@
            }),
            d.is_armed() == self.is_armed(),
    {
        let Diag { diagnostic, bomb } = self;
        Diag { diagnostic: diagnostic.with_secondary_label(span, msg), bomb }
    }

    /// Sets the note.
    pub fn with_note(self, note: String) -> (d: Diag)
        ensures
            d@ == (DiagnosticView { note: Some(note@), ..self@ }),
            d.is_armed() == self.is_armed(),
    {
        let Diag { diagnostic, bomb } = self;
        Diag { diagnostic: diagnostic.with_note(note), bomb }
    }

    /// Sets the code.
    pub fn with_code(self, code: String) -> (d: Diag)
        ensures
            d@ == (DiagnosticView { code: Some(code@), ..self@ }),
            d.is_armed() == self.is_armed(),
    {
        let Diag { diagnostic, bomb } = self;
        Diag { diagnostic: diagnostic.with_code(code), bomb }
    }

    /// Records the diagnostic in `dcx`: it comes after everything recorded
    /// before, and the error or warning count grows by one when it is an
    /// error or a warning.
    pub fn finish(self, dcx: &mut DiagCtx) -> (g: ErrorGuaranteed)
        requires
            old(dcx).wf(),
        ensures
            final(dcx).wf(),
            final(dcx)@ == old(dcx)@.push(self.diagnostic()),
            count_level(final(dcx)@, Level::Error) == count_level(old(dcx)@, Level::Error) + if self@.level
                == Level::Error {
                1int
            } else {
                0int
            },
            count_level(final(dcx)@, Level::Warning) == count_level(old(dcx)@, Level::Warning)
                + if self@.level == Level::Warning {
                1int
            } else {
                0int
            },
            count_level(final(dcx)@, Level::Note) == count_level(old(dcx)@, Level::Note) + if self@.level
                == Level::Note {
                1int
            } else {
                0int
            },
            final(dcx).is_pending() == old(dcx).is_pending(),
    {
        let Diag { diagnostic, mut bomb } = self;
        let level = diagnostic.level;
        let ghost before = dcx@;
        bomb.defuse();
        frozen_push(&mut dcx.diagnostics, diagnostic);
        proof {
            assert(dcx@.drop_last() =~= before);
            lemma_count_level_bound(before, Level::Error);
            lemma_count_level_bound(before, Level::Warning);
        }
        match level {
            Level::Error => {
                dcx.err_count = dcx.err_count + 1;
            },
            Level::Warning => {
                dcx.warn_count = dcx.warn_count + 1;
            },
            Level::Note => {},
        }
        ErrorGuaranteed { reported: () }
    }

    /// Throws the diagnostic away deliberately.
    pub fn cancel(self) {
        let Diag { diagnostic: _, mut bomb } = self;
        bomb.defuse();
    }
}

} // verus!
