//! The position index: a line-start table built once per text blob, used to
//! turn any valid byte offset into a line/character position.

use vstd::prelude::*;

use crate::text::{
    char_count, char_of, is_scalar_start, lemma_char_count_extend, lemma_line_count_starts,
    lemma_line_starts_form, lemma_locate, line_count, line_end, line_of, line_starts,
};

verus! {

/// A location in a text blob: 0-based line, and 0-based count of Unicode
/// scalar values since that line's start. A position is only meaningful
/// relative to the exact text it was computed from.
#[derive(Clone, Copy, Debug, PartialEq, Eq, Structural)]
pub struct Position {
    pub line: usize,
    pub character: usize,
}

/// A span between two positions; `start` precedes or equals `end` in
/// document order.
#[derive(Clone, Copy, Debug, PartialEq, Eq, Structural)]
pub struct Range {
    pub start: Position,
    pub end: Position,
}

/// Mathematical counterpart of [`Position`], over unbounded integers.
pub struct PosData {
    pub line: int,
    pub character: int,
}

/// Mathematical counterpart of [`Range`].
pub struct RangeData {
    pub start: PosData,
    pub end: PosData,
}

/// The range's start precedes or equals its end in document order:
/// line-major, then character.
pub open spec fn range_ordered(r: RangeData) -> bool {
    r.start.line < r.end.line || (r.start.line == r.end.line && r.start.character
        <= r.end.character)
}

impl View for Position {
    type V = PosData;

    open spec fn view(&self) -> PosData {
        PosData { line: self.line as int, character: self.character as int }
    }
}

impl View for Range {
    type V = RangeData;

    open spec fn view(&self) -> RangeData {
        RangeData { start: self.start@, end: self.end@ }
    }
}

/// The byte offsets at which each line of one text blob begins, recorded by
/// a single linear scan; lookups binary-search this table.
pub struct LineIndex {
    starts: Vec<usize>,
}

impl LineIndex {
    /// The table matches `text`: its entries are exactly the line starts.
    pub closed spec fn wf(&self, text: Seq<u8>) -> bool {
        self.starts@.map_values(|x: usize| x as int) == line_starts(text)
    }

    /// Record the start offset of every line of `text`.
    pub fn new(text: &[u8]) -> (r: LineIndex)
        ensures
            r.wf(text@),
    {
        let mut starts: Vec<usize> = Vec::new();
        starts.push(0);
        proof {
            assert(starts@.map_values(|x: usize| x as int) =~= line_starts(
                text@.subrange(0, 0),
            )) by {
                assert(text@.subrange(0, 0).len() == 0);
            }
        }
        let n = text.len();
        let mut i: usize = 0;
        while i < n
            invariant
                i <= n,
                n == text@.len(),
                starts@.map_values(|x: usize| x as int) == line_starts(text@.subrange(0, i as int)),
            decreases n - i,
        {
            let ghost pre = starts@;
            if text[i] == 10 {
                starts.push(i + 1);
                proof {
                    assert(starts@.map_values(|x: usize| x as int) =~= pre.map_values(
                        |x: usize| x as int,
                    ).push((i + 1) as int));
                }
            }
            proof {
                let sub1 = text@.subrange(0, i as int + 1);
                assert(sub1.drop_last() =~= text@.subrange(0, i as int));
                assert(sub1.last() == text@[i as int]);
            }
            i += 1;
        }
        proof {
            assert(text@.subrange(0, n as int) =~= text@);
        }
        LineIndex { starts }
    }

    /// How many lines the indexed text has.
    pub fn num_lines(&self, text: &[u8]) -> (n: usize)
        requires
            self.wf(text@),
        ensures
            n == line_count(text@),
    {
        proof {
            lemma_line_count_starts(text@);
            assert(self.starts@.map_values(|x: usize| x as int).len() == self.starts@.len());
        }
        if text.len() == 0 {
            0
        } else if text[text.len() - 1] == 10 {
            self.starts.len() - 1
        } else {
            self.starts.len()
        }
    }

    /// Byte offset at which line `i` begins.
    pub fn start_of_line(&self, text: &[u8], i: usize) -> (r: usize)
        requires
            self.wf(text@),
            i < line_count(text@),
        ensures
            r == line_starts(text@)[i as int],
    {
        proof {
            lemma_line_count_starts(text@);
            let m = self.starts@.map_values(|x: usize| x as int);
            assert(m.len() == self.starts@.len());
            assert(m[i as int] == self.starts@[i as int] as int);
        }
        self.starts[i]
    }

    /// Exclusive byte offset at which line `i` ends, before its newline.
    pub fn end_of_line(&self, text: &[u8], i: usize) -> (r: usize)
        requires
            self.wf(text@),
            i < line_count(text@),
        ensures
            r == line_end(text@, i as int),
    {
        proof {
            lemma_line_count_starts(text@);
            lemma_line_starts_form(text@);
            crate::text::lemma_line_count_le(text@);
            let m = self.starts@.map_values(|x: usize| x as int);
            assert(m.len() == self.starts@.len());
            assert(forall|k: int| 0 <= k < m.len() ==> m[k] == self.starts@[k] as int);
        }
        if i < self.starts.len() - 1 {
            proof {
                let s = line_starts(text@);
                assert(s[0] < s[i as int + 1]);
            }
            self.starts[i + 1] - 1
        } else {
            text.len()
        }
    }

    /// Resolve a byte offset to its position: the line is the number of
    /// newline bytes before the offset, the character the number of scalar
    /// values between that line's start and the offset.
    #[verifier::loop_isolation(false)]
    pub fn to_pos(&self, text: &[u8], offset: usize) -> (p: Position)
        requires
            self.wf(text@),
            offset <= text@.len(),
        ensures
            p.line == line_of(text@, offset as int),
            p.character == char_of(text@, offset as int),
    {
        let ghost t = text@;
        let ghost s = line_starts(t);
        proof {
            lemma_line_starts_form(t);
            lemma_locate(t, offset as int);
            let m = self.starts@.map_values(|x: usize| x as int);
            assert(m.len() == self.starts@.len());
            assert(forall|k: int| 0 <= k < m.len() ==> m[k] == self.starts@[k] as int);
        }
        let mut lo: usize = 0;
        let mut hi: usize = self.starts.len() - 1;
        while lo < hi
            invariant
                lo <= hi < self.starts@.len(),
                self.starts@[lo as int] <= offset,
                forall|j: int| hi < j < s.len() ==> s[j] > offset,
            decreases hi - lo,
        {
            let mid = lo + (hi - lo + 1) / 2;
            if self.starts[mid] <= offset {
                lo = mid;
            } else {
                hi = mid - 1;
                proof {
                    assert forall|j: int| hi < j < s.len() implies s[j] > offset by {
                        if j > mid {
                            assert(s[mid as int] < s[j]);
                        }
                    }
                }
            }
        }
        proof {
            let k = line_of(t, offset as int);
            if (lo as int) < k {
                assert(s[lo as int + 1] <= s[k]) by {
                    if lo as int + 1 < k {
                        assert(s[lo as int + 1] < s[k]);
                    }
                }
                assert(false);
            }
            if (lo as int) > k {
                assert(s[k + 1] <= s[lo as int]) by {
                    if k + 1 < lo as int {
                        assert(s[k + 1] < s[lo as int]);
                    }
                }
                assert(false);
            }
            assert(lo as int == k);
        }
        let start = self.starts[lo];
        let mut c: usize = 0;
        let mut i: usize = start;
        while i < offset
            invariant
                start <= i <= offset,
                c == char_count(t.subrange(start as int, i as int)),
                c <= i - start,
            decreases offset - i,
        {
            proof {
                lemma_char_count_extend(t, start as int, i as int);
            }
            if text[i] < 128 || text[i] >= 192 {
                c += 1;
            }
            i += 1;
        }
        Position { line: lo, character: c }
    }
}

/// Count the scalar values beginning in `text[from..to]`.
#[verifier::loop_isolation(false)]
pub fn count_chars(text: &[u8], from: usize, to: usize) -> (c: usize)
    requires
        from <= to <= text@.len(),
    ensures
        c == char_count(text@.subrange(from as int, to as int)),
{
    let mut c: usize = 0;
    let mut i: usize = from;
    while i < to
        invariant
            from <= i <= to,
            c == char_count(text@.subrange(from as int, i as int)),
            c <= i - from,
        decreases to - i,
    {
        proof {
            lemma_char_count_extend(text@, from as int, i as int);
        }
        if text[i] < 128 || text[i] >= 192 {
            c += 1;
        }
        i += 1;
    }
    c
}

/// Byte offset, within `text[from..to]`, of the scalar value with index `k`.
#[verifier::loop_isolation(false)]
pub fn scalar_offset(text: &[u8], from: usize, to: usize, k: usize) -> (r: usize)
    requires
        from <= to <= text@.len(),
        k < char_count(text@.subrange(from as int, to as int)),
    ensures
        from <= r < to,
        char_count(text@.subrange(from as int, r as int)) == k,
        is_scalar_start(text@[r as int]),
{
    let mut c: usize = 0;
    let mut i: usize = from;
    while i < to
        invariant
            from <= i <= to,
            c == char_count(text@.subrange(from as int, i as int)),
            c <= k,
        decreases to - i,
    {
        proof {
            lemma_char_count_extend(text@, from as int, i as int);
        }
        if text[i] < 128 || text[i] >= 192 {
            if c == k {
                return i;
            }
            c += 1;
        }
        i += 1;
    }
    proof {
        assert(false);
    }
    unreached()
}

} // verus!
