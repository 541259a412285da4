//! Byte-level model of a text blob: newline structure, scalar-value
//! counting, and the line-start table the position index is built on.
//!
//! Text is a sequence of UTF-8 bytes. A byte begins a Unicode scalar value
//! exactly when it is not a continuation byte (`0x80..0xC0`), so counting
//! scalar values over a span of well-formed UTF-8 is counting such bytes.

use vstd::prelude::*;

verus! {

/// The line feed byte `\n`; lines are delimited by it alone.
pub open spec fn is_newline(b: u8) -> bool {
    b == 10u8
}

/// ASCII space or horizontal tab: what counts as trailing whitespace on a line.
pub open spec fn is_space_or_tab(b: u8) -> bool {
    b == 32u8 || b == 9u8
}

/// ASCII whitespace: space and the control bytes HT, LF, VT, FF, CR.
pub open spec fn is_whitespace_byte(b: u8) -> bool {
    b == 32u8 || (9u8 <= b && b <= 13u8)
}

/// Whether `b` begins a Unicode scalar value in UTF-8 (it is no continuation byte).
pub open spec fn is_scalar_start(b: u8) -> bool {
    b < 128u8 || b >= 192u8
}

/// Length of the white-space scalar value that `t` begins with: the UTF-8
/// encoding of a Unicode white-space code point, or `0` where `t` begins
/// with anything else.
pub open spec fn blank_prefix_len(t: Seq<u8>) -> int {
    if t.len() >= 1 && is_whitespace_byte(t[0]) {
        1  // U+0009..U+000D and U+0020
    } else if t.len() >= 2 && t[0] == 0xC2u8 && (t[1] == 0x85u8 || t[1] == 0xA0u8) {
        2  // U+0085 next line, U+00A0 no-break space
    } else if t.len() >= 3 && t[0] == 0xE1u8 && t[1] == 0x9Au8 && t[2] == 0x80u8 {
        3  // U+1680 ogham space mark
    } else if t.len() >= 3 && t[0] == 0xE2u8 && t[1] == 0x80u8 && ((0x80u8 <= t[2] && t[2]
        <= 0x8Au8) || t[2] == 0xA8u8 || t[2] == 0xA9u8 || t[2] == 0xAFu8) {
        3  // U+2000..U+200A spaces, U+2028, U+2029, U+202F narrow no-break space
    } else if t.len() >= 3 && t[0] == 0xE2u8 && t[1] == 0x81u8 && t[2] == 0x9Fu8 {
        3  // U+205F medium mathematical space
    } else if t.len() >= 3 && t[0] == 0xE3u8 && t[1] == 0x80u8 && t[2] == 0x80u8 {
        3  // U+3000 ideographic space
    } else {
        0
    }
}

/// A text is blank when it is a sequence of Unicode white-space scalar
/// values in UTF-8; so is the empty text.
pub open spec fn is_blank(t: Seq<u8>) -> bool
    decreases t.len(),
{
    if t.len() == 0 {
        true
    } else {
        blank_prefix_len(t) > 0 && is_blank(t.skip(blank_prefix_len(t)))
    }
}

/// Number of newline bytes in `t`.
pub open spec fn newline_count(t: Seq<u8>) -> nat
    decreases t.len(),
{
    if t.len() == 0 {
        0
    } else {
        newline_count(t.drop_last()) + if is_newline(t.last()) {
            1nat
        } else {
            0nat
        }
    }
}

/// Number of Unicode scalar values that begin in `t`.
pub open spec fn char_count(t: Seq<u8>) -> nat
    decreases t.len(),
{
    if t.len() == 0 {
        0
    } else {
        char_count(t.drop_last()) + if is_scalar_start(t.last()) {
            1nat
        } else {
            0nat
        }
    }
}

/// Length of `t` with trailing spaces and tabs removed.
pub open spec fn trimmed_len(t: Seq<u8>) -> nat
    decreases t.len(),
{
    if t.len() == 0 {
        0
    } else if is_space_or_tab(t.last()) {
        trimmed_len(t.drop_last())
    } else {
        t.len()
    }
}

/// Byte offset at which the line containing offset `o` begins:
/// `0`, or the offset just after the last newline before `o`.
pub open spec fn line_start_at(t: Seq<u8>, o: int) -> int
    decreases o,
{
    if o <= 0 {
        0
    } else if is_newline(t[o - 1]) {
        o
    } else {
        line_start_at(t, o - 1)
    }
}

/// The offsets at which lines begin: offset `0`, and the offset just after
/// every newline byte, in increasing order.
pub open spec fn line_starts(t: Seq<u8>) -> Seq<int>
    decreases t.len(),
{
    if t.len() == 0 {
        seq![0int]
    } else if is_newline(t.last()) {
        line_starts(t.drop_last()).push(t.len() as int)
    } else {
        line_starts(t.drop_last())
    }
}

/// The line owning byte offset `o`: how many newline bytes precede it.
pub open spec fn line_of(t: Seq<u8>, o: int) -> int {
    newline_count(t.subrange(0, o)) as int
}

/// The column of byte offset `o`: scalar values between its line's start and `o`.
pub open spec fn char_of(t: Seq<u8>, o: int) -> int {
    char_count(t.subrange(line_start_at(t, o), o)) as int
}

/// How many lines `t` has. A trailing segment without a terminating newline
/// is still one line; the empty text has none.
pub open spec fn line_count(t: Seq<u8>) -> int {
    if t.len() == 0 {
        0
    } else if is_newline(t.last()) {
        newline_count(t) as int
    } else {
        newline_count(t) as int + 1
    }
}

/// Exclusive end offset of line `i`: the offset of its newline, or the text's end.
pub open spec fn line_end(t: Seq<u8>, i: int) -> int {
    if i + 1 < line_starts(t).len() {
        line_starts(t)[i + 1] - 1
    } else {
        t.len() as int
    }
}

/// The content of line `i`, without its newline.
pub open spec fn line_at(t: Seq<u8>, i: int) -> Seq<u8> {
    t.subrange(line_starts(t)[i], line_end(t, i))
}

/// A text has at most as many newlines as bytes.
pub proof fn lemma_newline_count_le(t: Seq<u8>)
    ensures
        newline_count(t) <= t.len(),
    decreases t.len(),
{
    if t.len() > 0 {
        lemma_newline_count_le(t.drop_last());
    }
}

/// A text has at most as many lines as bytes.
pub proof fn lemma_line_count_le(t: Seq<u8>)
    ensures
        line_count(t) <= t.len(),
{
    if t.len() > 0 {
        lemma_newline_count_le(t.drop_last());
        if is_newline(t.last()) {
        } else {
            assert(newline_count(t) == newline_count(t.drop_last()));
        }
    }
}

/// Extending a subrange by one byte extends the newline count by that byte's
/// contribution.
pub proof fn lemma_newline_count_extend(t: Seq<u8>, o: int)
    requires
        0 <= o < t.len(),
    ensures
        newline_count(t.subrange(0, o + 1)) == newline_count(t.subrange(0, o)) + if is_newline(
            t[o],
        ) {
            1nat
        } else {
            0nat
        },
{
    assert(t.subrange(0, o + 1).drop_last() =~= t.subrange(0, o));
    assert(t.subrange(0, o + 1).last() == t[o]);
}

/// Extending a subrange by one byte extends the scalar count by that byte's
/// contribution.
pub proof fn lemma_char_count_extend(t: Seq<u8>, a: int, o: int)
    requires
        0 <= a <= o < t.len(),
    ensures
        char_count(t.subrange(a, o + 1)) == char_count(t.subrange(a, o)) + if is_scalar_start(
            t[o],
        ) {
            1nat
        } else {
            0nat
        },
{
    assert(t.subrange(a, o + 1).drop_last() =~= t.subrange(a, o));
    assert(t.subrange(a, o + 1).last() == t[o]);
}

/// Scalar counts add over concatenation.
pub proof fn lemma_char_count_concat(a: Seq<u8>, b: Seq<u8>)
    ensures
        char_count(a + b) == char_count(a) + char_count(b),
    decreases b.len(),
{
    if b.len() == 0 {
        assert(a + b =~= a);
    } else {
        assert((a + b).drop_last() =~= a + b.drop_last());
        assert((a + b).last() == b.last());
        lemma_char_count_concat(a, b.drop_last());
    }
}

/// A prefix holds at most as many scalar values as the whole.
pub proof fn lemma_char_count_take_le(c: Seq<u8>, m: int)
    requires
        0 <= m <= c.len(),
    ensures
        char_count(c.take(m)) <= char_count(c),
{
    assert(c =~= c.take(m) + c.skip(m));
    lemma_char_count_concat(c.take(m), c.skip(m));
}

/// Trimming only shortens.
pub proof fn lemma_trimmed_len_le(c: Seq<u8>)
    ensures
        trimmed_len(c) <= c.len(),
    decreases c.len(),
{
    if c.len() > 0 && is_space_or_tab(c.last()) {
        lemma_trimmed_len_le(c.drop_last());
    }
}

/// Shape of the line-start table: one entry per newline plus the leading one,
/// starting at `0`, strictly increasing, each later entry just after a newline.
pub proof fn lemma_line_starts_form(t: Seq<u8>)
    ensures
        line_starts(t).len() == newline_count(t) + 1,
        line_starts(t)[0] == 0,
        forall|k: int|
            0 <= k < line_starts(t).len() ==> 0 <= #[trigger] line_starts(t)[k] <= t.len(),
        forall|j: int, k: int|
            0 <= j < k < line_starts(t).len() ==> #[trigger] line_starts(t)[j]
                < #[trigger] line_starts(t)[k],
        forall|k: int|
            1 <= k < line_starts(t).len() ==> is_newline(t[#[trigger] line_starts(t)[k] - 1]),
    decreases t.len(),
{
    if t.len() == 0 {
    } else {
        let p = t.drop_last();
        lemma_line_starts_form(p);
        assert forall|k: int| 1 <= k < line_starts(p).len() implies is_newline(
            t[line_starts(p)[k] - 1],
        ) by {
            assert(is_newline(p[line_starts(p)[k] - 1]));
            assert(p[line_starts(p)[k] - 1] == t[line_starts(p)[k] - 1]);
        }
        if is_newline(t.last()) {
            let s = line_starts(t);
            let sp = line_starts(p);
            assert(s == sp.push(t.len() as int));
            assert forall|j: int, k: int| 0 <= j < k < s.len() implies s[j] < s[k] by {
                if k < s.len() - 1 {
                    assert(sp[j] < sp[k]);
                } else {
                    assert(s[j] == sp[j]);
                    assert(sp[j] <= p.len());
                }
            }
        }
    }
}

/// Every offset just after a newline byte appears in the line-start table.
pub proof fn lemma_line_starts_contains(t: Seq<u8>, x: int)
    requires
        1 <= x <= t.len(),
        is_newline(t[x - 1]),
    ensures
        exists|k: int| 0 <= k < line_starts(t).len() && line_starts(t)[k] == x,
    decreases t.len(),
{
    if x == t.len() {
        let sp = line_starts(t.drop_last());
        let k = sp.len() as int;
        assert(line_starts(t)[k] == x);
    } else {
        let p = t.drop_last();
        assert(p[x - 1] == t[x - 1]);
        lemma_line_starts_contains(p, x);
        let k = choose|k: int| 0 <= k < line_starts(p).len() && line_starts(p)[k] == x;
        if is_newline(t.last()) {
            assert(line_starts(t)[k] == x);
        } else {
            assert(line_starts(t)[k] == x);
        }
    }
}

/// Locates offset `o` in the line-start table: its line's entry is the line
/// start, at or before `o`, and the next entry (if any) lies beyond `o`.
pub proof fn lemma_locate(t: Seq<u8>, o: int)
    requires
        0 <= o <= t.len(),
    ensures
        0 <= line_of(t, o) < line_starts(t).len(),
        line_starts(t)[line_of(t, o)] == line_start_at(t, o),
        line_starts(t)[line_of(t, o)] <= o,
        line_of(t, o) + 1 < line_starts(t).len() ==> o < line_starts(t)[line_of(t, o) + 1],
    decreases o,
{
    lemma_line_starts_form(t);
    let s = line_starts(t);
    if o == 0 {
        assert(t.subrange(0, 0).len() == 0);
    } else {
        lemma_locate(t, o - 1);
        lemma_newline_count_extend(t, o - 1);
        let kp = line_of(t, o - 1);
        if !is_newline(t[o - 1]) {
            let k = line_of(t, o);
            assert(k == kp);
            assert(line_start_at(t, o) == line_start_at(t, o - 1));
            if k + 1 < s.len() {
                assert(o - 1 < s[k + 1]);
                if s[k + 1] == o {
                    assert(is_newline(t[o - 1]));
                }
                assert(o < s[k + 1]);
            }
        } else {
            let k = line_of(t, o);
            assert(k == kp + 1);
            lemma_line_starts_contains(t, o);
            let j = choose|j: int| 0 <= j < s.len() && s[j] == o;
            // j must come after the line of o - 1
            if j <= kp {
                if j < kp {
                    assert(s[j] < s[kp]);
                }
                assert(s[j] <= s[kp] <= o - 1);
                assert(false);
            }
            // and no later than the entry right after it
            if j > kp + 1 {
                assert(kp + 1 < s.len());
                assert(o - 1 < s[kp + 1]);
                assert(s[kp + 1] < s[j]);
                assert(false);
            }
            assert(j == k);
            assert(s[k] == o);
            assert(line_start_at(t, o) == o);
        }
    }
}

/// Line boundaries are ordered: each line starts at or before its end, which
/// lies within the text.
pub proof fn lemma_line_end_bounds(t: Seq<u8>, i: int)
    requires
        0 <= i < line_starts(t).len(),
    ensures
        line_starts(t)[i] <= line_end(t, i) <= t.len(),
{
    lemma_line_starts_form(t);
    let s = line_starts(t);
    if i + 1 < s.len() {
        assert(s[i] < s[i + 1]);
    }
}

/// Any offset within line `i` is owned by line `i`, and its line start is
/// that line's entry in the table.
pub proof fn lemma_offset_in_line(t: Seq<u8>, i: int, o: int)
    requires
        0 <= i < line_starts(t).len(),
        line_starts(t)[i] <= o <= line_end(t, i),
    ensures
        line_of(t, o) == i,
        line_start_at(t, o) == line_starts(t)[i],
{
    lemma_line_starts_form(t);
    lemma_line_end_bounds(t, i);
    lemma_locate(t, o);
    let s = line_starts(t);
    let k = line_of(t, o);
    if k < i {
        assert(s[k + 1] <= s[i]) by {
            if k + 1 < i {
                assert(s[k + 1] < s[i]);
            }
        }
        assert(false);
    }
    if k > i {
        assert(i + 1 < s.len());
        assert(o <= s[i + 1] - 1);
        assert(s[i + 1] <= s[k]) by {
            if i + 1 < k {
                assert(s[i + 1] < s[k]);
            }
        }
        assert(false);
    }
}

/// How the line count relates to the line-start table: the trailing entry of
/// a newline-terminated text opens no further line.
pub proof fn lemma_line_count_starts(t: Seq<u8>)
    ensures
        t.len() == 0 ==> line_count(t) == 0 && line_starts(t).len() == 1,
        t.len() > 0 && is_newline(t.last()) ==> line_count(t) == line_starts(t).len() - 1,
        t.len() > 0 && !is_newline(t.last()) ==> line_count(t) == line_starts(t).len(),
        line_count(t) <= line_starts(t).len(),
{
    lemma_line_starts_form(t);
}

} // verus!
