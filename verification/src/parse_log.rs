//! The `.parsed` dump: the tree of a clean or recovered parse, or the first
//! syntax error of a failed one as `line:col error:message`; after an error
//! nothing more is written.
use vstd::prelude::*;
use crate::diag::{Diag, Level};
use crate::lexer::log::{dump_line, position_prefix};
use crate::line_index::{line_col_of, LineIndex};
use crate::parse::Parsed;
use crate::text::push_str;
use vstd::string::StringExecFns;

verus! {

/// What the dump gets for one parse.
#[derive(Debug, PartialEq, Eq)]
pub enum ParsedDump {
    /// The tree, printed as an S-expression.
    Tree,
    /// A line of text.
    Line(String),
    /// Nothing.
    Nothing,
}

/// Index of the first error among `errs`.
pub open spec fn first_error(errs: Seq<Diag>) -> int {
    choose|i: int|
        0 <= i < errs.len() && errs[i]@.level == Level::Error && forall|j: int|
            0 <= j < i ==> #[trigger] errs[j]@.level != Level::Error
}

pub open spec fn has_error(errs: Seq<Diag>) -> bool {
    exists|i: int| 0 <= i < errs.len() && #[trigger] errs[i]@.level == Level::Error
}

/// Whether the `.parsed` dump of one file has stopped.
pub struct ParseLog {
    stopped: bool,
}

impl ParseLog {
    pub closed spec fn is_stopped(self) -> bool {
        self.stopped
    }

    pub fn new() -> (l: ParseLog)
        ensures
            !l.is_stopped(),
    {
        ParseLog { stopped: false }
    }

    /// What the dump gets for a parse whose diagnostics are `errs`, of the
    /// file whose text `index` was built from and whose first byte is at
    /// global offset `base`. A failed parse has an error.
    pub fn entry<Out>(&mut self, parsed: &Parsed<Out>, errs: &[Diag], base: u32, index: &LineIndex) -> (r: ParsedDump)
        requires
            index.wf(),
            *parsed is Failed ==> has_error(errs@),
            forall|i: int| 0 <= i < errs@.len() ==> (#[trigger] errs@[i]@.loc matches Some(l) ==> base
                <= l.lo < u32::MAX),
        ensures
            old(self).is_stopped() ==> r == ParsedDump::Nothing && final(self).is_stopped(),
            !old(self).is_stopped() && !(*parsed is Failed) ==> r == ParsedDump::Tree && !final(self).is_stopped(),
            !old(self).is_stopped() && *parsed is Failed ==> final(self).is_stopped() && ({
                let d = errs@[first_error(errs@)]@;
                match d.loc {
                    Some(l) => (r matches ParsedDump::Line(s) && s@ == dump_line(
                        index.text(),
                        l.lo - base,
                        "error:"@ + d.message,
                    )),
                    None => r == ParsedDump::Nothing,
                }
            }),
    {
        if self.stopped {
            return ParsedDump::Nothing;
        }
        match parsed {
            Parsed::Clean(_) | Parsed::Recovered(_) => ParsedDump::Tree,
            Parsed::Failed => {
                self.stopped = true;
                let n = errs.len();
                let mut i: usize = 0;
                while i < n && errs[i].level() != Level::Error
                    invariant
                        n == errs@.len(),
                        i <= n,
                        has_error(errs@),
                        forall|j: int| 0 <= j < i ==> #[trigger] errs@[j]@.level != Level::Error,
                    decreases n - i,
                {
                    i += 1;
                }
                proof {
                    if i == n {
                        let k = choose|k: int| 0 <= k < errs@.len() && #[trigger] errs@[k]@.level == Level::Error;
                        assert(errs@[k]@.level != Level::Error);
                    }
                    assert(0 <= i < errs@.len() && errs@[i as int]@.level == Level::Error && forall|j: int|
                        0 <= j < i ==> #[trigger] errs@[j]@.level != Level::Error);
                    let f = first_error(errs@);
                    if f < i {
                        assert(errs@[f]@.level != Level::Error);
                    }
                    if i < f {
                        assert(errs@[i as int]@.level != Level::Error);
                    }
                    assert(f == i);
                }
                let d = &errs[i];
                match d.loc() {
                    Some(l) => {
                        let mut s = position(index, l.lo - base);
                        push_str(&mut s, "error:");
                        push_str(&mut s, d.message());
                        proof {
                            reveal_strlit("error:");
                            assert(s@ =~= dump_line(index.text(), l.lo - base, "error:"@ + d@.message));
                        }
                        ParsedDump::Line(s)
                    },
                    None => ParsedDump::Nothing,
                }
            },
        }
    }
}

fn position(index: &LineIndex, at: u32) -> (s: String)
    requires
        index.wf(),
        at < u32::MAX,
    ensures
        s@ == position_prefix(line_col_of(index.text(), at as int)),
{
    crate::lexer::log::position(index, at)
}

} // verus!
