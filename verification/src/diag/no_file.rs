//! Diagnostics of code whose file is not known yet: labels point at byte
//! ranges of one source, and the part of the compiler that knows the file
//! attaches it before the diagnostic is reported.
use vstd::prelude::*;
use std::ops::Range;
use crate::diag::{opt_view, Diagnostic, DiagnosticView, Level, LabelColor};
use crate::span::Span;

verus! {

#[derive(Debug)]
pub struct NoFileDiagnostic {
    pub level: Level,
    pub code: Option<String>,
    pub message: String,
    pub labels: Vec<(Range<usize>, String, LabelColor)>,
    pub note: Option<String>,
}

/// A label as plain values: the range's ends, the text and the colour.
pub open spec fn label_view(l: (Range<usize>, String, LabelColor)) -> (usize, usize, Seq<char>, LabelColor) {
    (l.0.start, l.0.end, l.1@, l.2)
}

impl NoFileDiagnostic {
    pub open spec fn labels_view(self) -> Seq<(usize, usize, Seq<char>, LabelColor)> {
        self.labels@.map_values(|l: (Range<usize>, String, LabelColor)| label_view(l))
    }

    /// A diagnostic of the given level with `message` and nothing else.
    pub open spec fn is_plain(self, level: Level, message: Seq<char>) -> bool {
        &&& self.level == level
        &&& self.message@ == message
        &&& self.code is None
        &&& self.note is None
        &&& self.labels@.len() == 0
    }

    fn plain(level: Level, message: String) -> (d: NoFileDiagnostic)
        ensures
            d.is_plain(level, message@),
    {
        NoFileDiagnostic { level, code: None, message, labels: Vec::new(), note: None }
    }

    pub fn error(message: String) -> (d: NoFileDiagnostic)
        ensures
            d.is_plain(Level::Error, message@),
    {
        Self::plain(Level::Error, message)
    }

    pub fn warning(message: String) -> (d: NoFileDiagnostic)
        ensures
            d.is_plain(Level::Warning, message@),
    {
        Self::plain(Level::Warning, message)
    }

    pub fn note(message: String) -> (d: NoFileDiagnostic)
        ensures
            d.is_plain(Level::Note, message@),
    {
        Self::plain(Level::Note, message)
    }

    pub fn with_code(self, code: String) -> (d: NoFileDiagnostic)
        ensures
            d.code == Some(code),
            d.level == self.level,
            d.message == self.message,
            d.labels == self.labels,
            d.note == self.note,
    {
        let mut d = self;
        d.code = Some(code);
        d
    }

    fn with_label(self, span: &Range<usize>, message: String, color: LabelColor) -> (d: NoFileDiagnostic)
        ensures
            d.labels_view() == self.labels_view().push((span.start, span.end, message@, color)),
            d.level == self.level,
            d.message == self.message,
            d.code == self.code,
            d.note == self.note,
    {
        let mut d = self;
        let r = Range { start: span.start, end: span.end };
        d.labels.push((r, message, color));
        proof {
            assert(d.labels_view() =~= self.labels_view().push((span.start, span.end, message@, color)));
        }
        d
    }

    /// Adds a red label at `span`.
    pub fn with_primary_label(self, span: &Range<usize>, message: String) -> (d: NoFileDiagnostic)
        ensures
            d.labels_view() == self.labels_view().push((span.start, span.end, message@, LabelColor::Red)),
            d.level == self.level,
            d.message == self.message,
            d.code == self.code,
            d.note == self.note,
    {
        self.with_label(span, message, LabelColor::Red)
    }

    /// Adds a yellow label at `span`.
    pub fn with_secondary_label(self, span: &Range<usize>, message: String) -> (d: NoFileDiagnostic)
        ensures
            d.labels_view() == self.labels_view().push(
                (span.start, span.end, message@, LabelColor::Yellow),
            ),
            d.level == self.level,
            d.message == self.message,
            d.code == self.code,
            d.note == self.note,
    {
        self.with_label(span, message, LabelColor::Yellow)
    }

    pub fn with_note(self, note: String) -> (d: NoFileDiagnostic)
        ensures
            d.note == Some(note),
            d.level == self.level,
            d.message == self.message,
            d.labels == self.labels,
            d.code == self.code,
    {
        let mut d = self;
        d.note = Some(note);
        d
    }
}


/// A label moved into the file whose first byte is at offset `base`.
pub open spec fn moved_label(l: (Range<usize>, String, LabelColor), base: int) -> (Span, Seq<char>, LabelColor) {
    (Span { lo: (base + l.0.start) as u32, hi: (base + l.0.end) as u32 }, l.1@, l.2)
}

/// What a file-less diagnostic becomes in the file whose first byte is at
/// offset `base`: its labels moved by `base`, and its place that of its
/// first label, the one it was raised at.
pub open spec fn in_file(d: NoFileDiagnostic, base: int) -> DiagnosticView {
    let labels = d.labels@.map_values(|l: (Range<usize>, String, LabelColor)| moved_label(l, base));
    DiagnosticView {
        level: d.level,
        message: d.message@,
        loc: if labels.len() > 0 {
            Some(labels[0].0)
        } else {
            None
        },
        labels,
        code: opt_view(d.code),
        note: opt_view(d.note),
    }
}

impl NoFileDiagnostic {
    /// Attaches the file whose first byte is at global offset `base`: every
    /// label's range is moved by `base`.
    pub fn specify_file(self, base: u32) -> (d: Diagnostic)
        requires
            forall|i: int|
                0 <= i < self.labels@.len() ==> base + (#[trigger] self.labels@[i]).0.start <= u32::MAX && base
                    + self.labels@[i].0.end <= u32::MAX,
        ensures
            d@ == in_file(self, base as int),
    {
        let ghost all = self.labels@;
        let ghost target = all.map_values(|l: (Range<usize>, String, LabelColor)| moved_label(l, base as int));
        let NoFileDiagnostic { level, code, message, labels, note } = self;
        let n = labels.len();
        let mut rest = labels;
        let mut out: Vec<(Span, String, LabelColor)> = Vec::new();
        let mut k: usize = 0;
        proof {
            assert(rest@ =~= all.skip(0));
            assert(out@.map_values(|l: (Span, String, LabelColor)| (l.0, l.1@, l.2)) =~= target.take(0));
        }
        while rest.len() > 0
            invariant
                rest@ == all.skip(k as int),
                k <= all.len(),
                all.len() == n,
                target == all.map_values(|l: (Range<usize>, String, LabelColor)| moved_label(l, base as int)),
                forall|i: int|
                    0 <= i < all.len() ==> base + (#[trigger] all[i]).0.start <= u32::MAX && base + all[i].0.end
                        <= u32::MAX,
                out@.map_values(|l: (Span, String, LabelColor)| (l.0, l.1@, l.2)) == target.take(k as int),
            decreases rest.len(),
        {
            let ghost before = out@;
            proof {
                assert(k < all.len());
            }
            let (r, m, c) = rest.remove(0);
            proof {
                assert(all[k as int] == (r, m, c));
                assert(base + r.start <= u32::MAX && base + r.end <= u32::MAX);
            }
            let lo = base + r.start as u32;
            let hi = base + r.end as u32;
            out.push((Span { lo, hi }, m, c));
            proof {
                assert(lo == base + r.start && hi == base + r.end);
                assert(target[k as int] == moved_label(all[k as int], base as int));
                assert(out@.last() == (Span { lo, hi }, m, c));
                assert(out@.drop_last() == before);
                let ov = out@.map_values(|l: (Span, String, LabelColor)| (l.0, l.1@, l.2));
                let bv = before.map_values(|l: (Span, String, LabelColor)| (l.0, l.1@, l.2));
                assert(bv == target.take(k as int));
                assert(bv.len() == k);
                assert(before.len() == k);
                assert(out@ == before.push((Span { lo, hi }, m, c)));
                assert(ov.len() == k + 1);
                assert forall|i: int| 0 <= i < k + 1 implies ov[i] == target.take(k + 1)[i] by {
                    if i < k {
                        assert(ov[i] == bv[i]);
                        assert(bv[i] == target.take(k as int)[i]);
                    }
                }
                assert(ov =~= target.take(k + 1));
            }
            k += 1;
            proof {
                assert(rest@ =~= all.skip(k as int));
            }
        }
        proof {
            assert(target.take(k as int) =~= target);
        }
        let loc = if out.len() > 0 {
            Some(out[0].0)
        } else {
            None
        };
        let d = Diagnostic { level, message, loc, labels: out, code, note };
        proof {
            assert(d@.labels =~= target);
        }
        d
    }
}

} // verus!
