//! Lexical errors reported as diagnostics, and the token stream that the
//! parser reads, which reports its errors that way.
use vstd::prelude::*;
use crate::diag::{views, Diag, DiagCtx, DiagnosticView, LabelColor, Level};
use crate::lexer::error::InternalLexerError;
use crate::lexer::grammar::{is_munch, is_trivia, munch, quoted, skip_trivia};
use crate::lexer::strings::lemma_literal_errors_within;
use crate::lexer::stream::{next_item, EtaLexer};
use crate::lexer::text::{error_label, error_message, error_note};
use crate::lexer::tokens::{RawToken, SourceToken};

verus! {

/// The diagnostic a lexical error is reported as: an error at its span, a
/// red label there, and the note where the error has one.
pub open spec fn lex_error_view(e: InternalLexerError) -> DiagnosticView {
    DiagnosticView {
        level: Level::Error,
        message: error_message(e.kind),
        loc: Some(e.span),
        labels: seq![(e.span, error_label(e.kind), LabelColor::Red)],
        code: None,
        note: error_note(e.kind),
    }
}

impl InternalLexerError {
    /// The diagnostic this error is reported as.
    pub fn to_diag(&self, dcx: &DiagCtx) -> (d: Diag)
        ensures
            d@ == lex_error_view(*self),
    {
        let d = dcx.err(self.span, self.message()).with_primary_label(self.label());
        let d = match self.note() {
            Some(n) => d.with_note(n),
            None => d,
        };
        proof {
            assert(d@ =~= lex_error_view(*self));
        }
        d
    }
}

/// `r` is what the lexer gave, `r0`, with a lexical error reported as its
/// diagnostic.
pub open spec fn reported(r: Option<Result<SourceToken, Diag>>, r0: Option<Result<SourceToken, InternalLexerError>>) -> bool {
    match (r, r0) {
        (None, None) => true,
        (Some(Ok(t)), Some(Ok(t0))) => t == t0,
        (Some(Err(d)), Some(Err(e))) => d@ == lex_error_view(e),
        _ => false,
    }
}


/// `items` is what the lexer gives, one call at a time, from index `p` of
/// `s` (whose first byte is at offset `base`) until it stands at index `q`.
pub open spec fn lex_run(
    s: Seq<u8>,
    base: int,
    p: int,
    items: Seq<Result<SourceToken, InternalLexerError>>,
    q: int,
) -> bool
    decreases items.len(),
{
    if items.len() == 0 {
        p == q
    } else {
        exists|m: int|
            #[trigger] next_item(s, base, m, Some(items.last()), q) && lex_run(s, base, p, items.drop_last(), m)
    }
}

/// `items` is all that the lexer gives from index `p` of `s`: after them it
/// gives `None`.
pub open spec fn lexes_to(s: Seq<u8>, base: int, p: int, items: Seq<Result<SourceToken, InternalLexerError>>) -> bool {
    exists|q: int, e: int| #[trigger] lex_run(s, base, p, items, q) && #[trigger] next_item(s, base, q, None, e)
}

/// The diagnostics of the lexical errors among `items`, in order.
pub open spec fn error_views(items: Seq<Result<SourceToken, InternalLexerError>>) -> Seq<DiagnosticView>
    decreases items.len(),
{
    if items.len() == 0 {
        Seq::empty()
    } else {
        error_views(items.drop_last()) + match items.last() {
            Ok(_) => Seq::<DiagnosticView>::empty(),
            Err(e) => seq![lex_error_view(e)],
        }
    }
}

proof fn lemma_skip_trivia_from(s: Seq<u8>, i: int)
    requires
        0 <= i,
    ensures
        i <= skip_trivia(s, i),
    decreases s.len() - i,
{
    if 0 <= i < s.len() {
        match munch(s, i) {
            Some((c, len)) => {
                if is_trivia(c) && len >= 1 {
                    lemma_skip_trivia_from(s, i + len);
                }
            },
            None => {},
        }
    }
}

/// A lexical error lies in the text at or after where the lexer stood, so
/// its place can be shown as a line and column of the file.
pub proof fn lemma_next_error_within(
    s: Seq<u8>,
    base: int,
    p: int,
    r: Option<Result<SourceToken, InternalLexerError>>,
    p2: int,
)
    requires
        0 <= base,
        0 <= p,
        base + s.len() <= u32::MAX,
        next_item(s, base, p, r, p2),
    ensures
        r matches Some(Err(e)) ==> base + p <= e.span.lo < base + s.len(),
{
    lemma_skip_trivia_from(s, p);
    let t = skip_trivia(s, p);
    if t < s.len() {
        match munch(s, t) {
            Some((c, len)) => {
                assert(is_munch(s, t, len, c));
                let w = s.subrange(t, t + len);
                if c is CharLit || c is StrLit {
                    assert(quoted(w, 39) || quoted(w, 34));
                    lemma_literal_errors_within(w, base + t);
                }
            },
            None => {},
        }
    }
}

impl<'src> EtaLexer<'src> {
    /// The next token, or the diagnostic of a lexical error, or `None` at the
    /// end of the text: what [`EtaLexer::next`] gives, with errors reported.
    pub fn next_reported(&mut self, dcx: &DiagCtx) -> (r: Option<Result<SourceToken, Diag>>)
        requires
            old(self).wf(),
        ensures
            final(self).wf(),
            final(self).source() == old(self).source(),
            final(self).base() == old(self).base(),
            exists|r0: Option<Result<SourceToken, InternalLexerError>>|
                next_item(old(self).source(), old(self).base(), old(self).position(), r0, final(self).position())
                    && #[trigger] reported(r, r0),
            r is None ==> final(self).position() == old(self).source().len(),
            r is Some ==> old(self).position() < final(self).position() <= old(self).source().len(),
            r matches Some(Ok(t)) ==> old(self).base() + old(self).position() <= t.span.lo < t.span.hi
                == old(self).base() + final(self).position(),
            r matches Some(Ok(t)) ==> (t.tok matches RawToken::CharLiteral(c) ==> vstd::utf8::is_scalar(c)),
            r matches Some(Err(d)) ==> (d@.loc matches Some(l) && old(self).base() + old(self).position() <= l.lo
                < old(self).base() + old(self).source().len()),
    {
        proof {
            self.lemma_position_bound();
        }
        let r0 = self.next();
        let ghost g = r0;
        proof {
            lemma_next_error_within(old(self).source(), old(self).base(), old(self).position(), g, self.position());
        }
        let r = match r0 {
            None => None,
            Some(Ok(t)) => Some(Ok(t)),
            Some(Err(e)) => Some(Err(e.to_diag(dcx))),
        };
        proof {
            assert(reported(r, g));
        }
        r
    }

    /// Reads the lexer to the end of its text, recording the diagnostic of
    /// every lexical error met on the way, in order; tokens are dropped.
    pub fn drain_reported(&mut self, dcx: &mut DiagCtx)
        requires
            old(self).wf(),
            old(dcx).wf(),
        ensures
            final(self).wf(),
            final(self).source() == old(self).source(),
            final(self).base() == old(self).base(),
            final(self).position() == old(self).source().len(),
            final(dcx).wf(),
            final(dcx).is_pending() == old(dcx).is_pending(),
            final(dcx)@.len() >= old(dcx)@.len(),
            final(dcx)@.take(old(dcx)@.len() as int) == old(dcx)@,
            exists|items: Seq<Result<SourceToken, InternalLexerError>>|
                lexes_to(old(self).source(), old(self).base(), old(self).position(), items) && #[trigger] error_views(
                    items,
                ) == views(final(dcx)@.skip(old(dcx)@.len() as int)),
    {
        let ghost s = self.source();
        let ghost base = self.base();
        let ghost p0 = self.position();
        let ghost d0 = dcx@;
        let ghost mut items: Seq<Result<SourceToken, InternalLexerError>> = Seq::empty();
        let ghost mut last: int = p0;
        let mut done = false;
        proof {
            self.lemma_position_bound();
            assert(dcx@.skip(d0.len() as int) =~= Seq::<crate::diag::Diagnostic>::empty());
            assert(views(dcx@.skip(d0.len() as int)) =~= error_views(items));
            assert(dcx@.take(d0.len() as int) =~= d0);
        }
        while !done
            invariant
                self.wf(),
                self.source() == s,
                self.base() == base,
                p0 <= self.position() <= s.len(),
                lex_run(s, base, p0, items, last),
                !done ==> last == self.position(),
                done ==> self.position() == s.len() && next_item(s, base, last, None, s.len() as int),
                dcx.wf(),
                dcx.is_pending() == old(dcx).is_pending(),
                d0 == old(dcx)@,
                dcx@.len() >= d0.len(),
                dcx@.take(d0.len() as int) == d0,
                views(dcx@.skip(d0.len() as int)) == error_views(items),
            decreases s.len() - self.position() + if done { 0int } else { 1int },
        {
            let ghost pos = self.position();
            let ghost before = dcx@;
            let r = self.next_reported(dcx);
            let ghost r0 = choose|r0: Option<Result<SourceToken, InternalLexerError>>|
                next_item(s, base, pos, r0, self.position()) && #[trigger] reported(r, r0);
            match r {
                None => {
                    done = true;
                },
                Some(Ok(_)) => {
                    proof {
                        let x = r0.unwrap();
                        let prev = items;
                        items = items.push(x);
                        assert(items.drop_last() =~= prev);
                        assert(items.last() == x);
                        assert(next_item(s, base, pos, Some(items.last()), self.position()));
                        last = self.position();
                        assert(error_views(items) =~= error_views(prev));
                    }
                },
                Some(Err(d)) => {
                    proof {
                        d.lemma_view();
                    }
                    d.finish(dcx);
                    proof {
                        let x = r0.unwrap();
                        let prev = items;
                        items = items.push(x);
                        assert(items.drop_last() =~= prev);
                        assert(items.last() == x);
                        assert(next_item(s, base, pos, Some(items.last()), self.position()));
                        last = self.position();
                        let e = x->Err_0;
                        assert(error_views(items) =~= error_views(prev) + seq![lex_error_view(e)]);
                        assert(dcx@.skip(d0.len() as int) =~= before.skip(d0.len() as int).push(d.diagnostic()));
                        assert(views(dcx@.skip(d0.len() as int)) =~= views(before.skip(d0.len() as int)).push(
                            lex_error_view(e),
                        ));
                        assert(dcx@.take(d0.len() as int) =~= before.take(d0.len() as int));
                    }
                },
            }
        }
        proof {
            assert(lex_run(s, base, p0, items, last) && next_item(s, base, last, None, s.len() as int));
            assert(lexes_to(s, base, p0, items));
        }
    }
}

} // verus!
