//! Byte offset to (line, column) conversion for one source text.
use vstd::prelude::*;
use vstd::string::StringSliceAdditionalSpecFns;

verus! {

/// Number of line feeds among the first `n` bytes of `b`.
pub open spec fn newlines_before(b: Seq<u8>, n: int) -> nat
    decreases n,
{
    if n <= 0 {
        0
    } else if b[n - 1] == 10u8 {
        newlines_before(b, n - 1) + 1
    } else {
        newlines_before(b, n - 1)
    }
}

/// Offset of the first byte of the line that contains offset `n`: just after
/// the last line feed before `n`, or 0.
pub open spec fn line_start_before(b: Seq<u8>, n: int) -> int
    decreases n,
{
    if n <= 0 {
        0
    } else if b[n - 1] == 10u8 {
        n
    } else {
        line_start_before(b, n - 1)
    }
}

/// Offsets at which the lines of `b` begin: 0, then one past every line feed.
pub open spec fn line_starts_of(b: Seq<u8>) -> Seq<int>
    decreases b.len(),
{
    if b.len() == 0 {
        seq![0int]
    } else {
        let prev = line_starts_of(b.drop_last());
        if b.last() == 10u8 {
            prev.push(b.len() as int)
        } else {
            prev
        }
    }
}

/// 1-based (line, column) of byte offset `offset` in `b`; offsets past the end
/// count as positions on the last line. The column counts bytes.
pub open spec fn line_col_of(b: Seq<u8>, offset: int) -> (int, int) {
    let n = if offset <= b.len() { offset } else { b.len() as int };
    (newlines_before(b, n) as int + 1, offset - line_start_before(b, n) + 1)
}

/// Precomputed byte-offset -> (line, column) map for one source text.
pub struct LineIndex {
    /// Byte offset of the first character on each line.
    line_starts: Vec<usize>,
    /// The text the index was built from.
    text: Ghost<Seq<u8>>,
}

proof fn lemma_newlines_prefix(b: Seq<u8>, c: Seq<u8>, n: int)
    requires
        0 <= n <= b.len(),
        b.len() <= c.len(),
        b == c.subrange(0, b.len() as int),
    ensures
        newlines_before(b, n) == newlines_before(c, n),
        line_start_before(b, n) == line_start_before(c, n),
    decreases n,
{
    if n > 0 {
        lemma_newlines_prefix(b, c, n - 1);
    }
}

proof fn lemma_bounds(b: Seq<u8>, n: int)
    requires
        0 <= n,
    ensures
        newlines_before(b, n) <= n,
        0 <= line_start_before(b, n) <= n,
    decreases n,
{
    if n > 0 {
        lemma_bounds(b, n - 1);
    }
}

/// The starts are increasing, begin at 0, and the ones not above `n` are exactly
/// the first `newlines_before(b, n) + 1`, the last of which is the start of the
/// line containing `n`.
proof fn lemma_line_starts(b: Seq<u8>)
    ensures
        line_starts_of(b).len() == newlines_before(b, b.len() as int) + 1,
        line_starts_of(b)[0] == 0,
        forall|i: int, j: int|
            0 <= i < j < line_starts_of(b).len() ==> line_starts_of(b)[i] < line_starts_of(b)[j],
        forall|j: int| 0 <= j < line_starts_of(b).len() ==> line_starts_of(b)[j] <= b.len(),
        forall|n: int, j: int|
            0 <= n <= b.len() && 0 <= j < line_starts_of(b).len() ==> (line_starts_of(b)[j] <= n
                <==> j <= newlines_before(b, n)),
        forall|n: int|
            0 <= n <= b.len() ==> #[trigger] line_starts_of(b)[newlines_before(b, n) as int]
                == line_start_before(b, n),
    decreases b.len(),
{
    if b.len() > 0 {
        let p = b.drop_last();
        lemma_line_starts(p);
        assert forall|n: int| 0 <= n <= p.len() implies newlines_before(p, n) == newlines_before(
            b,
            n,
        ) && line_start_before(p, n) == line_start_before(b, n) by {
            lemma_newlines_prefix(p, b, n);
        }
        let s = line_starts_of(b);
        let ps = line_starts_of(p);
        let len = b.len() as int;
        assert forall|n: int| 0 <= n <= len implies #[trigger] newlines_before(b, n) <= n
            && line_start_before(b, n) <= n by {
            lemma_bounds(b, n);
        }
        assert forall|n: int, j: int|
            0 <= n <= b.len() && 0 <= j < s.len() implies (s[j] <= n <==> j <= newlines_before(
                b,
                n,
            )) by {
            if n < len {
                if j < ps.len() {
                    assert(s[j] == ps[j]);
                } else {
                    assert(s[j] == len);
                    assert(newlines_before(b, n) == newlines_before(p, n));
                    assert(newlines_before(p, n) <= newlines_before(p, p.len() as int)) by {
                        lemma_monotone(p, n, p.len() as int);
                    }
                }
            } else {
                if j < ps.len() {
                    assert(s[j] == ps[j]);
                    assert(ps[j] <= p.len());
                } else {
                    assert(s[j] == len);
                }
            }
        }
        assert forall|n: int| 0 <= n <= b.len() implies #[trigger] s[newlines_before(
            b,
            n,
        ) as int] == line_start_before(b, n) by {
            if n < len {
                assert(newlines_before(b, n) == newlines_before(p, n));
                assert(newlines_before(p, n) <= newlines_before(p, p.len() as int)) by {
                    lemma_monotone(p, n, p.len() as int);
                }
            }
        }
    }
}

proof fn lemma_monotone(b: Seq<u8>, m: int, n: int)
    requires
        0 <= m <= n,
    ensures
        newlines_before(b, m) <= newlines_before(b, n),
    decreases n - m,
{
    if m < n {
        lemma_monotone(b, m, n - 1);
    }
}

impl LineIndex {
    /// The text this index describes.
    pub closed spec fn text(&self) -> Seq<u8> {
        self.text@
    }

    pub closed spec fn wf(&self) -> bool {
        &&& self.line_starts@.len() == line_starts_of(self.text@).len()
        &&& forall|j: int|
            0 <= j < self.line_starts@.len() ==> self.line_starts@[j] as int == line_starts_of(
                self.text@,
            )[j]
    }

    pub fn new(text: &str) -> (idx: LineIndex)
        ensures
            idx.wf(),
            idx.text() == text.spec_bytes(),
    {
        let bytes = text.as_bytes();
        let mut line_starts: Vec<usize> = Vec::new();
        line_starts.push(0);
        let mut i: usize = 0;
        while i < bytes.len()
            invariant
                0 <= i <= bytes@.len(),
                line_starts@.len() == line_starts_of(bytes@.subrange(0, i as int)).len(),
                forall|j: int|
                    0 <= j < line_starts@.len() ==> line_starts@[j] as int == line_starts_of(
                        bytes@.subrange(0, i as int),
                    )[j],
            decreases bytes@.len() - i,
        {
            let ghost before = bytes@.subrange(0, i as int);
            assert(bytes@.subrange(0, i + 1).drop_last() == before);
            if bytes[i] == 10u8 {
                line_starts.push(i + 1);
            }
            i = i + 1;
        }
        assert(bytes@.subrange(0, bytes@.len() as int) == bytes@);
        LineIndex { line_starts, text: Ghost(bytes@) }
    }

    /// 1-indexed (line, column); the column is a byte offset from the start of
    /// the line.
    pub fn line_col(&self, offset: usize) -> (lc: (usize, usize))
        requires
            self.wf(),
            offset < usize::MAX,
        ensures
            lc.0 as int == line_col_of(self.text(), offset as int).0,
            lc.1 as int == line_col_of(self.text(), offset as int).1,
    {
        proof {
            lemma_line_starts(self.text@);
        }
        let ghost b = self.text@;
        let ghost n: int = if offset <= b.len() { offset as int } else { b.len() as int };
        let ghost k: int = newlines_before(b, n) as int;
        // binary search for the number of starts that are <= offset
        let mut lo: usize = 0;
        let mut hi: usize = self.line_starts.len();
        while lo < hi
            invariant
                self.wf(),
                b == self.text@,
                0 <= lo <= hi <= self.line_starts@.len(),
                forall|j: int| 0 <= j < lo ==> self.line_starts@[j] <= offset,
                forall|j: int| hi <= j < self.line_starts@.len() ==> self.line_starts@[j] > offset,
            decreases hi - lo,
        {
            let mid = lo + (hi - lo) / 2;
            proof {
                lemma_line_starts(b);
            }
            if self.line_starts[mid] <= offset {
                proof {
                    assert forall|j: int| 0 <= j <= mid implies self.line_starts@[j] <= offset by {
                        assert(line_starts_of(b)[j] <= line_starts_of(b)[mid as int] || j == mid);
                    }
                }
                lo = mid + 1;
            } else {
                proof {
                    assert forall|j: int|
                        mid <= j < self.line_starts@.len() implies self.line_starts@[j]
                        > offset by {
                        assert(line_starts_of(b)[mid as int] <= line_starts_of(b)[j] || j == mid);
                    }
                }
                hi = mid;
            }
        }
        proof {
            // lo is the number of starts not above `offset`, i.e. k + 1.
            lemma_monotone(b, n, b.len() as int);
            lemma_bounds(b, n);
            assert(self.line_starts@[0] == 0);
            assert(lo >= 1);
            if lo < self.line_starts@.len() {
                assert(line_starts_of(b)[lo as int] > offset);
                assert(!(lo <= k)) by {
                    if lo <= k {
                        assert(line_starts_of(b)[lo as int] <= n);
                    }
                }
            } else {
                assert(lo == k + 1 || lo <= k + 1) by {
                    lemma_bounds(b, n);
                    lemma_monotone(b, n, b.len() as int);
                }
            }
            assert(line_starts_of(b)[(lo - 1) as int] <= offset);
            if lo - 1 < k {
                assert(line_starts_of(b)[k] <= n);
                assert(line_starts_of(b)[(lo - 1) as int] < line_starts_of(b)[k]);
                if lo < self.line_starts@.len() {
                    assert(line_starts_of(b)[lo as int] <= line_starts_of(b)[k]);
                }
            }
            if lo - 1 > k {
                if offset <= b.len() {
                    assert(line_starts_of(b)[(lo - 1) as int] <= n);
                } else {
                    lemma_monotone(b, n, b.len() as int);
                }
            }
            assert(lo - 1 == k);
        }
        let line_idx = lo - 1;
        (line_idx + 1, offset - self.line_starts[line_idx] + 1)
    }
}

} // verus!
