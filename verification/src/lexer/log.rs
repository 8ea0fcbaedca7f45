//! The `.lexed` dump: one line per token, `line:col token`, and one line for
//! the first lexical error, `line:col error:message`, after which nothing
//! more is written (the tokens still flow to the parser).
use vstd::prelude::*;
use vstd::string::StringExecFns;
use vstd::string::StringSliceAdditionalSpecFns;
use crate::diag::{Diag, DiagCtx, Level};
use crate::lexer::error::InternalLexerError;
use crate::lexer::report::reported;
use crate::lexer::stream::{next_item, EtaLexer};
use crate::lexer::text::{nat_decimal, push_decimal, token_text};
use crate::lexer::tokens::{RawToken, SourceToken};
use crate::line_index::{line_col_of, LineIndex};
use crate::parse::printable;
use crate::text::push_str;

verus! {

/// `line:col ` in decimal.
pub open spec fn position_prefix(lc: (int, int)) -> Seq<char> {
    nat_decimal(lc.0 as nat) + ":"@ + nat_decimal(lc.1 as nat) + " "@
}

/// The dump line of the item at local offset `at` of `text`.
pub open spec fn dump_line(text: Seq<u8>, at: int, body: Seq<char>) -> Seq<char> {
    position_prefix(line_col_of(text, at)) + body
}

/// What the dump holds for an item, given whether it has stopped: the token
/// at its start; the first error (at its place, if it has one), which stops
/// the dump; nothing for a note or warning, or once stopped. Returns the line
/// and whether the dump is stopped afterwards.
pub open spec fn dump_entry(text: Seq<u8>, base: int, stopped: bool, item: Result<SourceToken, Diag>) -> (Option<Seq<char>>, bool) {
    if stopped {
        (None, true)
    } else {
        match item {
            Ok(t) => (Some(dump_line(text, t.span.lo - base, token_text(t.tok))), false),
            Err(d) => if d@.level == Level::Error {
                match d@.loc {
                    Some(l) => (Some(dump_line(text, l.lo - base, "error:"@ + d@.message)), true),
                    None => (None, true),
                }
            } else {
                (None, false)
            },
        }
    }
}

/// What the dump holds after the items `items`, from a dump not yet
/// stopped: its lines, and whether it has stopped.
pub open spec fn dump_fold(text: Seq<u8>, base: int, items: Seq<Result<SourceToken, Diag>>) -> (Seq<Seq<char>>, bool)
    decreases items.len(),
{
    if items.len() == 0 {
        (Seq::empty(), false)
    } else {
        let (ls, st) = dump_fold(text, base, items.drop_last());
        let (line, st2) = dump_entry(text, base, st, items.last());
        (
            match line {
                Some(l) => ls.push(l),
                None => ls,
            },
            st2,
        )
    }
}

/// An item that stops the dump: a diagnostic of the error level.
pub open spec fn is_error_item(x: Result<SourceToken, Diag>) -> bool {
    x matches Err(d) && d@.level == Level::Error
}

/// One line per token among `items`, at its start; none for a note or
/// warning.
pub open spec fn token_lines(text: Seq<u8>, base: int, items: Seq<Result<SourceToken, Diag>>) -> Seq<Seq<char>>
    decreases items.len(),
{
    if items.len() == 0 {
        Seq::empty()
    } else {
        token_lines(text, base, items.drop_last()) + match items.last() {
            Ok(t) => seq![dump_line(text, t.span.lo - base, token_text(t.tok))],
            Err(_) => Seq::<Seq<char>>::empty(),
        }
    }
}

/// The line of an error, where it has a place.
pub open spec fn error_line(text: Seq<u8>, base: int, d: Diag) -> Seq<Seq<char>> {
    match d@.loc {
        Some(l) => seq![dump_line(text, l.lo - base, "error:"@ + d@.message)],
        None => Seq::empty(),
    }
}

/// The dump of a stream holds one line per token before its first error,
/// then the line of that error, and nothing for what follows; it has
/// stopped exactly when the stream holds an error. `k` is the index of the
/// first error, or the length of the stream when it holds none.
pub proof fn lemma_dump_stops_at_first_error(text: Seq<u8>, base: int, items: Seq<Result<SourceToken, Diag>>, k: int)
    requires
        0 <= k <= items.len(),
        k < items.len() ==> is_error_item(items[k]),
        forall|j: int| 0 <= j < k ==> !is_error_item(#[trigger] items[j]),
    ensures
        dump_fold(text, base, items).0 == token_lines(text, base, items.take(k)) + if k < items.len() {
            error_line(text, base, items[k]->Err_0)
        } else {
            Seq::<Seq<char>>::empty()
        },
        dump_fold(text, base, items).1 == (k < items.len()),
    decreases items.len(),
{
    if items.len() == 0 {
        assert(items.take(k) =~= Seq::<Result<SourceToken, Diag>>::empty());
        assert(token_lines(text, base, items.take(k)) + Seq::<Seq<char>>::empty() =~= Seq::<Seq<char>>::empty());
    } else {
        let n = items.len() as int;
        let init = items.drop_last();
        if k == n {
            lemma_dump_stops_at_first_error(text, base, init, n - 1);
            assert(init.take(n - 1) =~= init);
            assert(items.take(n) =~= items);
            assert(items.take(n).drop_last() =~= init);
            assert(!is_error_item(items[n - 1]));
            assert(dump_fold(text, base, items).0 =~= token_lines(text, base, items.take(k)) + Seq::<
                Seq<char>,
            >::empty());
        } else if k == n - 1 {
            lemma_dump_stops_at_first_error(text, base, init, n - 1);
            assert(init.take(n - 1) =~= init);
            assert(items.take(k) =~= init);
            assert(dump_fold(text, base, items).0 =~= token_lines(text, base, items.take(k)) + error_line(
                text,
                base,
                items[k]->Err_0,
            ));
        } else {
            assert(init[k] == items[k]);
            assert forall|j: int| 0 <= j < k implies !is_error_item(#[trigger] init[j]) by {
                assert(init[j] == items[j]);
            }
            lemma_dump_stops_at_first_error(text, base, init, k);
            assert(init.take(k) =~= items.take(k));
        }
    }
}

/// Whether the `.lexed` dump of one file has stopped at its first error.
pub struct LexLog {
    stopped: bool,
}

impl LexLog {
    pub closed spec fn is_stopped(self) -> bool {
        self.stopped
    }

    pub fn new() -> (l: LexLog)
        ensures
            !l.is_stopped(),
    {
        LexLog { stopped: false }
    }

    /// The dump line for the next item of the file whose text `index` was
    /// built from and whose first byte is at global offset `base`.
    pub fn entry(&mut self, item: &Result<SourceToken, Diag>, base: u32, index: &LineIndex) -> (r: Option<String>)
        requires
            index.wf(),
            item matches Ok(t) ==> base <= t.span.lo < u32::MAX && printable(t.tok),
            item matches Err(d) ==> (d@.loc matches Some(l) ==> base <= l.lo < u32::MAX),
        ensures
            ({
                let (line, stopped) = dump_entry(index.text(), base as int, old(self).is_stopped(), *item);
                &&& final(self).is_stopped() == stopped
                &&& r matches Some(s) ==> line == Some(s@)
                &&& r is None <==> line is None
            }),
    {
        if self.stopped {
            return None;
        }
        match item {
            Ok(t) => {
                let mut s = position(index, t.span.lo - base);
                let tt = t.tok.to_string();
                push_str(&mut s, tt.as_str());
                Some(s)
            },
            Err(d) => {
                if d.level() == Level::Error {
                    self.stopped = true;
                    match d.loc() {
                        Some(l) => {
                            let mut s = position(index, l.lo - base);
                            push_str(&mut s, "error:");
                            push_str(&mut s, d.message());
                            proof {
                                reveal_strlit("error:");
                                assert(s@ =~= dump_line(index.text(), l.lo - base, "error:"@ + d@.message));
                            }
                            Some(s)
                        },
                        None => None,
                    }
                } else {
                    None
                }
            },
        }
    }
}

/// A token stream that hands out exactly the items of its lexer, errors
/// reported, and writes the `.lexed` dump of what it handed out when asked.
pub struct TeeLexer<'src> {
    lexer: EtaLexer<'src>,
    base: u32,
    index: LineIndex,
    log: LexLog,
    logging: bool,
    lines: Vec<String>,
    handed: Ghost<Seq<Result<SourceToken, Diag>>>,
}

impl<'src> TeeLexer<'src> {
    /// The bytes being lexed.
    pub closed spec fn source(&self) -> Seq<u8> {
        self.lexer.source()
    }

    /// Global offset of the first byte.
    pub closed spec fn base(&self) -> int {
        self.lexer.base()
    }

    /// Index of the next unread byte.
    pub closed spec fn position(&self) -> int {
        self.lexer.position()
    }

    /// Whether the dump is written.
    pub closed spec fn logging(&self) -> bool {
        self.logging
    }

    /// The items handed out so far, in order.
    pub closed spec fn handed(&self) -> Seq<Result<SourceToken, Diag>> {
        self.handed@
    }

    /// The dump lines written so far.
    pub closed spec fn lines(&self) -> Seq<Seq<char>> {
        self.lines@.map_values(|s: String| s@)
    }

    pub closed spec fn wf(&self) -> bool {
        &&& self.lexer.wf()
        &&& self.base == self.lexer.base()
        &&& self.index.wf()
        &&& self.index.text() == self.lexer.source()
        &&& self.lines() == if self.logging {
            dump_fold(self.lexer.source(), self.lexer.base(), self.handed@).0
        } else {
            Seq::empty()
        }
        &&& self.log.is_stopped() == dump_fold(self.lexer.source(), self.lexer.base(), self.handed@).1
    }

    /// A stream over `text`, whose first byte is at global offset `base`,
    /// writing the dump when `logging`.
    pub fn new(base: u32, text: &'src str, logging: bool) -> (t: TeeLexer<'src>)
        requires
            base + text.spec_bytes().len() <= u32::MAX,
        ensures
            t.wf(),
            t.source() == text.spec_bytes(),
            t.base() == base,
            t.position() == 0,
            t.logging() == logging,
            t.handed() == Seq::<Result<SourceToken, Diag>>::empty(),
            t.lines() == Seq::<Seq<char>>::empty(),
    {
        let t = TeeLexer {
            lexer: EtaLexer::new(base, text),
            base,
            index: LineIndex::new(text),
            log: LexLog::new(),
            logging,
            lines: Vec::new(),
            handed: Ghost(Seq::empty()),
        };
        proof {
            assert(t.lines() =~= Seq::<Seq<char>>::empty());
        }
        t
    }

    /// The next item of the lexer, unchanged, with a lexical error reported;
    /// when logging, its dump line, if it has one, is written.
    pub fn next(&mut self, dcx: &DiagCtx) -> (r: Option<Result<SourceToken, Diag>>)
        requires
            old(self).wf(),
        ensures
            final(self).wf(),
            final(self).source() == old(self).source(),
            final(self).base() == old(self).base(),
            final(self).logging() == old(self).logging(),
            exists|r0: Option<Result<SourceToken, InternalLexerError>>|
                next_item(old(self).source(), old(self).base(), old(self).position(), r0, final(self).position())
                    && #[trigger] reported(r, r0),
            r is None ==> final(self).position() == old(self).source().len(),
            r is Some ==> old(self).position() < final(self).position() <= old(self).source().len(),
            final(self).handed() == match r {
                Some(x) => old(self).handed().push(x),
                None => old(self).handed(),
            },
            final(self).lines() == if final(self).logging() {
                dump_fold(final(self).source(), final(self).base(), final(self).handed()).0
            } else {
                Seq::<Seq<char>>::empty()
            },
    {
        let ghost before = self.handed@;
        let ghost lines_before = self.lines@;
        proof {
            self.lexer.lemma_position_bound();
        }
        let r = self.lexer.next_reported(dcx);
        match &r {
            Some(item) => {
                let ghost after = before.push(*item);
                proof {
                    assert(after.drop_last() =~= before);
                    assert(after.last() == *item);
                }
                let line = self.log.entry(item, self.base, &self.index);
                if self.logging {
                    match line {
                        Some(l) => {
                            self.lines.push(l);
                            proof {
                                assert(self.lines@.map_values(|s: String| s@) =~= lines_before.map_values(
                                    |s: String| s@,
                                ).push(l@));
                            }
                        },
                        None => {},
                    }
                }
                self.handed = Ghost(after);
            },
            None => {},
        }
        r
    }

    /// The dump lines written.
    pub fn into_lines(self) -> (r: Vec<String>)
        ensures
            r@.map_values(|s: String| s@) == self.lines(),
    {
        self.lines
    }
}

/// `line:col ` of local offset `at`.
pub(crate) fn position(index: &LineIndex, at: u32) -> (s: String)
    requires
        index.wf(),
        at < u32::MAX,
    ensures
        s@ == position_prefix(line_col_of(index.text(), at as int)),
{
    let (line, col) = index.line_col(at as usize);
    let mut s = String::new();
    push_decimal(&mut s, line as u64);
    push_str(&mut s, ":");
    push_decimal(&mut s, col as u64);
    push_str(&mut s, " ");
    proof {
        assert(s@ =~= position_prefix(line_col_of(index.text(), at as int)));
    }
    s
}

} // verus!
