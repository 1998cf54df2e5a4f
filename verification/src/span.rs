//! Spans — half-open character ranges into a source text — and the
//! conversion of a position into a 1-based (line, column) pair.

use vstd::prelude::*;

verus! {

/// A contiguous region of a source text, given by its start (inclusive)
/// and end (exclusive) character indices.
#[derive(Debug)]
pub struct Span {
    /// The starting character index of the span (inclusive).
    pub start: usize,
    /// The ending character index of the span (exclusive).
    pub end: usize,
}

impl Span {
    /// Creates a new `Span`. A span always covers at least one character,
    /// so `start` must lie strictly below `end`.
    pub fn new(start: usize, end: usize) -> (s: Span)
        requires
            start < end,
        ensures
            s.start == start,
            s.end == end,
    {
        Span { start, end }
    }
}

/// How many newline characters a sequence holds.
pub open spec fn count_nl(s: Seq<char>) -> int
    decreases s.len(),
{
    if s.len() == 0 {
        0
    } else {
        count_nl(s.drop_last()) + if s.last() == '\n' {
            1int
        } else {
            0int
        }
    }
}

/// Clamps a position into `[0, code.len()]`: the scan of
/// `location_to_line_col` never runs past the end of the text.
pub open spec fn clamp_pos(code: Seq<char>, idx: int) -> int {
    if idx < 0 {
        0
    } else if idx > code.len() {
        code.len() as int
    } else {
        idx
    }
}

/// The start of the line that position `m` lies on: the largest index at
/// or below `m` that sits just after a newline, or 0.
pub open spec fn line_start_before(code: Seq<char>, m: int) -> int
    decreases m,
{
    if m <= 0 || m > code.len() {
        0
    } else if code[m - 1] == '\n' {
        m
    } else {
        line_start_before(code, m - 1)
    }
}

/// The 1-based line number of position `idx`: one more than the number of
/// newlines strictly before it.
pub open spec fn line_of(code: Seq<char>, idx: int) -> int {
    1 + count_nl(code.subrange(0, clamp_pos(code, idx)))
}

/// The 1-based column of position `idx`: its distance from the start of
/// its line, plus one.
pub open spec fn col_of(code: Seq<char>, idx: int) -> int {
    let m = clamp_pos(code, idx);
    m - line_start_before(code, m) + 1
}

/// Counting newlines over a prefix grows by one exactly at a newline.
pub proof fn lemma_count_nl_push(s: Seq<char>, c: char)
    ensures
        count_nl(s.push(c)) == count_nl(s) + if c == '\n' {
            1int
        } else {
            0int
        },
{
    assert(s.push(c).drop_last() =~= s);
    assert(s.push(c).last() == c);
}

/// Stepping the scan one character forward: a newline moves to the next
/// line and resets the column; any other character widens the column.
pub proof fn lemma_loc_step(code: Seq<char>, i: int)
    requires
        0 <= i < code.len(),
    ensures
        code[i] == '\n' ==> line_of(code, i + 1) == line_of(code, i) + 1 && col_of(code, i + 1)
            == 1,
        code[i] != '\n' ==> line_of(code, i + 1) == line_of(code, i) && col_of(code, i + 1)
            == col_of(code, i) + 1,
{
    assert(code.subrange(0, i + 1) =~= code.subrange(0, i).push(code[i]));
    lemma_count_nl_push(code.subrange(0, i), code[i]);
}

/// Lines and columns are 1-based, and the scan never reaches past the end
/// of the text, so both stay within `len + 1`.
pub proof fn lemma_loc_bounds(code: Seq<char>, m: int)
    requires
        0 <= m <= code.len(),
    ensures
        0 <= line_start_before(code, m) <= m,
        1 <= col_of(code, m) <= m + 1,
        1 <= line_of(code, m) <= m + 1,
    decreases m,
{
    if m > 0 {
        lemma_loc_bounds(code, m - 1);
        lemma_loc_step(code, m - 1);
    } else {
        assert(code.subrange(0, 0) =~= Seq::<char>::empty());
    }
}

/// Converts a character index in the source text to a 1-based
/// (line, column) pair.
///
/// Each newline begins a new line and resets the column; every other
/// character widens the column by one. The scan stops when it reaches the
/// index, so the result describes the character at that index (a newline
/// itself sits one column past the last character of its line). An index
/// at or past the end of the text describes the position just after the
/// last character.
pub fn location_to_line_col(source: &str, index: usize) -> (r: (usize, usize))
    requires
        source@.len() < usize::MAX,
    ensures
        r.0 == line_of(source@, index as int),
        r.1 == col_of(source@, index as int),
{
    let len = source.unicode_len();
    let stop = if index < len {
        index
    } else {
        len
    };
    let mut line: usize = 1;
    let mut col: usize = 1;
    let mut i: usize = 0;
    proof {
        assert(source@.subrange(0, 0) =~= Seq::<char>::empty());
    }
    while i < stop
        invariant
            0 <= i <= stop,
            stop == clamp_pos(source@, index as int),
            stop <= source@.len() < usize::MAX,
            line == line_of(source@, i as int),
            col == col_of(source@, i as int),
        decreases stop - i,
    {
        let c = source.get_char(i);
        proof {
            lemma_loc_bounds(source@, i as int);
            lemma_loc_step(source@, i as int);
        }
        if c == '\n' {
            line = line + 1;
            col = 1;
        } else {
            col = col + 1;
        }
        i = i + 1;
    }
    proof {
        assert(clamp_pos(source@, index as int) == clamp_pos(source@, stop as int));
    }
    (line, col)
}

/// The position of the first newline at or after `from`, or the text's
/// length when no newline follows.
pub open spec fn find_nl(code: Seq<char>, from: int) -> int
    decreases code.len() - from,
{
    if from < 0 || from >= code.len() {
        code.len() as int
    } else if code[from] == '\n' {
        from
    } else {
        find_nl(code, from + 1)
    }
}

/// Where the 1-based line `l` begins: line 1 at the start of the text,
/// every further line just after the newline that ends the line before
/// it. For a line number past the last line this lands past the end of
/// the text.
pub open spec fn line_start(code: Seq<char>, l: int) -> int
    decreases l,
{
    if l <= 1 {
        0
    } else {
        find_nl(code, line_start(code, l - 1)) + 1
    }
}

/// The text of the 1-based line `l`, without its newline.
pub open spec fn line_text(code: Seq<char>, l: int) -> Seq<char> {
    code.subrange(line_start(code, l), find_nl(code, line_start(code, l)))
}

/// `find_nl` lands on the first newline: nothing before it is one, it
/// stays within the text, and it only stops short of the end on a
/// newline.
pub proof fn lemma_find_nl_props(code: Seq<char>, from: int)
    requires
        0 <= from <= code.len(),
    ensures
        from <= find_nl(code, from) <= code.len(),
        forall|i: int| #![trigger code[i]] from <= i < find_nl(code, from) ==> code[i] != '\n',
        find_nl(code, from) < code.len() ==> code[find_nl(code, from)] == '\n',
    decreases code.len() - from,
{
    if from < code.len() && code[from] != '\n' {
        lemma_find_nl_props(code, from + 1);
    }
}

/// A stretch with no newline in it cannot end before `q`: the first
/// newline at or after its start lies at or beyond `q`.
pub proof fn lemma_find_nl_at_least(code: Seq<char>, from: int, q: int)
    requires
        0 <= from <= q <= code.len(),
        forall|i: int| #![trigger code[i]] from <= i < q ==> code[i] != '\n',
    ensures
        find_nl(code, from) >= q,
    decreases q - from,
{
    lemma_find_nl_props(code, from);
    if from < q {
        assert(code[from] != '\n');
        lemma_find_nl_at_least(code, from + 1, q);
    }
}

/// `find_nl` is pinned down exactly: a newline-free stretch from `from`
/// up to a newline (or the end) at `q` makes `q` the first newline.
pub proof fn lemma_find_nl_is(code: Seq<char>, from: int, q: int)
    requires
        0 <= from <= q <= code.len(),
        forall|i: int| #![trigger code[i]] from <= i < q ==> code[i] != '\n',
        q == code.len() || code[q] == '\n',
    ensures
        find_nl(code, from) == q,
    decreases q - from,
{
    if from < q {
        lemma_find_nl_is(code, from + 1, q);
    }
}

/// No newline lies between the start of a position's line and the
/// position itself.
pub proof fn lemma_lsb_no_nl(code: Seq<char>, m: int)
    requires
        0 <= m <= code.len(),
    ensures
        forall|i: int| #![trigger code[i]] line_start_before(code, m) <= i < m ==> code[i] != '\n',
    decreases m,
{
    if m > 0 && code[m - 1] != '\n' {
        lemma_lsb_no_nl(code, m - 1);
    }
}

/// The line that the scan assigns to a position begins exactly where the
/// last newline before the position says it does.
pub proof fn lemma_line_start_of_loc(code: Seq<char>, m: int)
    requires
        0 <= m <= code.len(),
    ensures
        line_start(code, line_of(code, m)) == line_start_before(code, m),
    decreases m,
{
    if m == 0 {
        assert(code.subrange(0, 0) =~= Seq::<char>::empty());
    } else {
        lemma_line_start_of_loc(code, m - 1);
        lemma_loc_step(code, m - 1);
        lemma_loc_bounds(code, m - 1);
        if code[m - 1] == '\n' {
            lemma_lsb_no_nl(code, m - 1);
            lemma_find_nl_is(code, line_start_before(code, m - 1), m - 1);
        }
    }
}

/// Positions later in the text never lie on earlier lines.
pub proof fn lemma_line_monotone(code: Seq<char>, m1: int, m2: int)
    requires
        0 <= m1 <= m2 <= code.len(),
    ensures
        line_of(code, m1) <= line_of(code, m2),
    decreases m2 - m1,
{
    if m1 < m2 {
        lemma_line_monotone(code, m1, m2 - 1);
        lemma_loc_step(code, m2 - 1);
    }
}

/// Finds the position of the first newline at or after `from`, or the
/// text's length when none follows.
pub fn find_newline(code: &str, from: usize) -> (r: usize)
    requires
        from <= code@.len() < usize::MAX,
    ensures
        r == find_nl(code@, from as int),
        from <= r <= code@.len(),
{
    let len = code.unicode_len();
    let mut i = from;
    while i < len
        invariant
            from <= i <= len,
            len == code@.len(),
            find_nl(code@, from as int) == find_nl(code@, i as int),
        ensures
            from <= i <= len,
            find_nl(code@, from as int) == find_nl(code@, i as int),
            i == len || code@[i as int] == '\n',
        decreases len - i,
    {
        if code.get_char(i) == '\n' {
            break ;
        }
        i = i + 1;
    }
    i
}

/// Finds the start of the line that position `m` lies on: just after the
/// last newline strictly before `m`, or the start of the text.
pub fn scan_line_start(code: &str, m: usize) -> (r: usize)
    requires
        m <= code@.len() < usize::MAX,
    ensures
        r == line_start_before(code@, m as int),
        r <= m,
{
    let mut ls: usize = 0;
    let mut i: usize = 0;
    while i < m
        invariant
            0 <= i <= m <= code@.len(),
            ls == line_start_before(code@, i as int),
            ls <= i,
        decreases m - i,
    {
        if code.get_char(i) == '\n' {
            ls = i + 1;
        }
        i = i + 1;
    }
    ls
}

/// Two positions on one line sit exactly as many columns apart as they
/// are characters apart, and no newline lies between them.
pub proof fn lemma_same_line_col(code: Seq<char>, m1: int, m2: int)
    requires
        0 <= m1 <= m2 <= code.len(),
        line_of(code, m1) == line_of(code, m2),
    ensures
        col_of(code, m2) == col_of(code, m1) + (m2 - m1),
        forall|i: int| #![trigger code[i]] m1 <= i < m2 ==> code[i] != '\n',
    decreases m2 - m1,
{
    if m1 < m2 {
        lemma_line_monotone(code, m1, m2 - 1);
        lemma_line_monotone(code, m2 - 1, m2);
        lemma_loc_step(code, m2 - 1);
        lemma_same_line_col(code, m1, m2 - 1);
    }
}

} // verus!
