//! The position index: an offset -> (line, column) table built from the
//! source text by a single scan.
//!
//! Lines are 1-based and grow by one at every newline character; columns are
//! 0-based, count the characters since the last newline, and reset to 0
//! immediately after a newline. The table has one entry per character offset
//! in `[0, len]`: the entry at `len` is a sentinel describing the end of the
//! input, so that a span ending at the source length can still be resolved.

use vstd::prelude::*;

verus! {

/// The 1-based line and 0-based column of a character offset.
#[derive(Clone, Copy, PartialEq, Eq, Structural, Debug)]
pub struct LineCol {
    pub line: usize,
    pub col: usize,
}

/// The error of a position query whose offset lies outside the indexed range.
///
/// This signals mismatched source text and tree spans, a fatal condition for
/// the whole compilation unit; nothing is clamped silently.
#[derive(Clone, Copy, PartialEq, Eq, Structural, Debug)]
pub struct OffsetOutOfRange {
    /// The offending offset, as described by the contract of the function
    /// that returned the error.
    pub offset: usize,
}

/// The line of offset `o` in source `s`: 1 plus the number of newline
/// characters among the first `o` characters.
pub open spec fn line_at(s: Seq<char>, o: int) -> int
    decreases o,
{
    if o <= 0 {
        1
    } else {
        line_at(s, o - 1) + if s[o - 1] == '\n' {
            1int
        } else {
            0int
        }
    }
}

/// The column of offset `o` in source `s`: the number of characters between
/// the last newline before `o` and `o` itself.
pub open spec fn col_at(s: Seq<char>, o: int) -> int
    decreases o,
{
    if o <= 0 {
        0
    } else if s[o - 1] == '\n' {
        0
    } else {
        col_at(s, o - 1) + 1
    }
}

/// The number of newline characters in `s`.
pub open spec fn count_newlines(s: Seq<char>) -> nat
    decreases s.len(),
{
    if s.len() == 0 {
        0
    } else {
        count_newlines(s.drop_last()) + if s.last() == '\n' {
            1nat
        } else {
            0nat
        }
    }
}

/// The offset of the last newline character strictly before offset `o` in
/// `s`, or -1 if no newline precedes `o`.
pub open spec fn last_newline_before(s: Seq<char>, o: int) -> int
    decreases o,
{
    if o <= 0 {
        -1
    } else if s[o - 1] == '\n' {
        o - 1
    } else {
        last_newline_before(s, o - 1)
    }
}

/// The line of an offset counts the newlines before it: for every source `s`
/// and offset `o` in `[0, s.len()]`, the line is 1 plus the number of
/// newline characters in `s[0..o]`.
pub proof fn lemma_line_counts_newlines(s: Seq<char>, o: int)
    requires
        0 <= o <= s.len(),
    ensures
        line_at(s, o) == 1 + count_newlines(s.subrange(0, o)),
    decreases o,
{
    if o == 0 {
        assert(s.subrange(0, 0) =~= Seq::<char>::empty());
    } else {
        lemma_line_counts_newlines(s, o - 1);
        let p = s.subrange(0, o);
        assert(p.drop_last() =~= s.subrange(0, o - 1));
        assert(p.last() == s[o - 1]);
    }
}

/// The column of an offset is its distance from the last newline before it:
/// for every source `s` and offset `o` in `[0, s.len()]`, the column is
/// `o - p - 1` where `p` is the offset of the last newline strictly before
/// `o`, or -1 if none precedes it.
pub proof fn lemma_col_distance_from_last_newline(s: Seq<char>, o: int)
    requires
        0 <= o <= s.len(),
    ensures
        col_at(s, o) == o - last_newline_before(s, o) - 1,
    decreases o,
{
    if o > 0 && s[o - 1] != '\n' {
        lemma_col_distance_from_last_newline(s, o - 1);
    }
}

/// `last_newline_before` indeed names the last newline: it lies before `o`,
/// it is a newline when it exists, and no later offset before `o` is one.
pub proof fn lemma_last_newline_before_correct(s: Seq<char>, o: int)
    requires
        0 <= o <= s.len(),
    ensures
        -1 <= last_newline_before(s, o) < o,
        last_newline_before(s, o) >= 0 ==> s[last_newline_before(s, o)] == '\n',
        forall|j: int| last_newline_before(s, o) < j < o ==> s[j] != '\n',
    decreases o,
{
    if o > 0 && s[o - 1] != '\n' {
        lemma_last_newline_before_correct(s, o - 1);
    }
}

/// An offset -> (line, column) table for one source text, with one entry per
/// offset in `[0, len]`; the entry at `len` is the end-of-input sentinel.
pub struct LineColMapping {
    line_cols: Vec<LineCol>,
    source: Ghost<Seq<char>>,
}

impl LineColMapping {
    /// The source text this table was built from.
    pub closed spec fn src(self) -> Seq<char> {
        self.source@
    }

    /// Well-formedness: one entry per offset in `[0, src.len()]`, each
    /// holding that offset's line and column.
    pub closed spec fn wf(self) -> bool {
        &&& self.line_cols@.len() == self.src().len() + 1
        &&& forall|o: int|
            0 <= o <= self.src().len() ==> (#[trigger] self.line_cols@[o]).line == line_at(
                self.src(),
                o,
            ) && self.line_cols@[o].col == col_at(self.src(), o)
    }

    /// Builds the table by one scan of the source: each character's entry
    /// records the state before that character, then a newline advances the
    /// line and resets the column while any other character advances the
    /// column; one sentinel entry is appended after the scan.
    pub fn new(source: &str) -> (r: Self)
        requires
            source@.len() < usize::MAX,
        ensures
            r.wf(),
            r.src() == source@,
    {
        let n = source.unicode_len();
        let mut line_cols: Vec<LineCol> = Vec::new();
        let mut line: usize = 1;
        let mut col: usize = 0;
        let mut i: usize = 0;
        while i < n
            invariant
                n == source@.len() < usize::MAX,
                i <= n,
                line_cols@.len() == i,
                forall|o: int|
                    0 <= o < i ==> (#[trigger] line_cols@[o]).line == line_at(source@, o)
                        && line_cols@[o].col == col_at(source@, o),
                line == line_at(source@, i as int),
                col == col_at(source@, i as int),
                line <= i + 1,
                col <= i,
            decreases n - i,
        {
            line_cols.push(LineCol { line, col });
            let c = source.get_char(i);
            if c == '\n' {
                line = line + 1;
                col = 0;
            } else {
                col = col + 1;
            }
            i = i + 1;
        }
        line_cols.push(LineCol { line, col });
        LineColMapping { line_cols, source: Ghost(source@) }
    }

    /// The number of entries: the source length plus the sentinel.
    pub fn len(&self) -> (n: usize)
        requires
            self.wf(),
        ensures
            n == self.src().len() + 1,
    {
        self.line_cols.len()
    }

    /// Resolves an offset to its line and column. Every offset in
    /// `[0, src.len()]` succeeds; any other offset is out of range and
    /// fails with that offset.
    pub fn lookup(&self, offset: usize) -> (r: Result<LineCol, OffsetOutOfRange>)
        requires
            self.wf(),
        ensures
            offset <= self.src().len() ==> (r matches Ok(lc) && lc.line == line_at(
                self.src(),
                offset as int,
            ) && lc.col == col_at(self.src(), offset as int)),
            offset > self.src().len() ==> r == Err::<LineCol, OffsetOutOfRange>(
                OffsetOutOfRange { offset },
            ),
    {
        if offset < self.line_cols.len() {
            Ok(self.line_cols[offset])
        } else {
            Err(OffsetOutOfRange { offset })
        }
    }
}

/// Position lookup is pure: the contract of `lookup` pins its result to
/// `line_at` and `col_at` of the source text and offset alone, so two tables
/// built from the same source resolve every offset identically.
pub proof fn lemma_lookup_pure(m1: LineColMapping, m2: LineColMapping, o: int)
    requires
        m1.wf(),
        m2.wf(),
        m1.src() == m2.src(),
        0 <= o <= m1.src().len(),
    ensures
        line_at(m1.src(), o) == line_at(m2.src(), o),
        col_at(m1.src(), o) == col_at(m2.src(), o),
{
}

} // verus!
