//! Diagnostic errors: a message, the source text it refers to, the span
//! locating the problem, and optional context and note lines, rendered as
//! a caret-annotated, human-readable report.

use vstd::prelude::*;
use crate::source::Source;
use crate::span::{
    Span, col_of, find_newline, find_nl, lemma_find_nl_at_least, lemma_find_nl_props,
    lemma_line_monotone, lemma_line_start_of_loc, lemma_loc_bounds, lemma_lsb_no_nl,
    lemma_same_line_col, line_of, line_start, line_start_before, line_text, location_to_line_col,
    scan_line_start,
};

verus! {

/// A run of `n` spaces (empty when `n` is negative).
pub open spec fn spaces(n: int) -> Seq<char> {
    Seq::new(
        (if n < 0 {
            0
        } else {
            n
        }) as nat,
        |i: int| ' ',
    )
}

/// A run of `n` caret characters (empty when `n` is negative).
pub open spec fn carets(n: int) -> Seq<char> {
    Seq::new(
        (if n < 0 {
            0
        } else {
            n
        }) as nat,
        |i: int| '^',
    )
}

/// The decimal digit character for `d`.
pub open spec fn dec_digit(d: int) -> char {
    if d == 0 {
        '0'
    } else if d == 1 {
        '1'
    } else if d == 2 {
        '2'
    } else if d == 3 {
        '3'
    } else if d == 4 {
        '4'
    } else if d == 5 {
        '5'
    } else if d == 6 {
        '6'
    } else if d == 7 {
        '7'
    } else if d == 8 {
        '8'
    } else {
        '9'
    }
}

/// The decimal rendering of a non-negative number, most significant
/// digit first.
pub open spec fn dec_string(n: int) -> Seq<char>
    decreases n,
{
    if n < 10 {
        seq![dec_digit(n)]
    } else {
        dec_string(n / 10).push(dec_digit(n % 10))
    }
}

/// The width of the line-number gutter: the digit count of the largest
/// line number shown.
pub open spec fn gutter_width(sl: int, el: int) -> int {
    dec_string(
        if sl >= el {
            sl
        } else {
            el
        },
    ).len() as int
}

/// The report's first line: the message behind an `error: ` head.
pub open spec fn header_line(msg: Seq<char>) -> Seq<char> {
    "error: "@ + msg
}

/// The report's location line: `file:line:col`, widened with the end
/// column when the span covers more than one column, and with the end
/// line and column when it covers more than one line.
pub open spec fn location_line(
    file: Seq<char>,
    sl: int,
    sc: int,
    el: int,
    ec: int,
    w: int,
) -> Seq<char> {
    spaces(w) + "--> "@ + file + ":"@ + dec_string(sl) + ":"@ + dec_string(sc) + (if sl == el && sc
        == ec {
        Seq::<char>::empty()
    } else if sl == el {
        "-"@ + dec_string(ec)
    } else {
        "-"@ + dec_string(el) + ":"@ + dec_string(ec)
    })
}

/// A bare gutter line: the margin and its separator bar.
pub open spec fn gutter_line(w: int) -> Seq<char> {
    spaces(w) + " |"@
}

/// A source line of the excerpt: its right-aligned line number, the
/// separator bar, and the line's text.
pub open spec fn numbered_line(code: Seq<char>, w: int, l: int) -> Seq<char> {
    dec_string(l) + spaces(w - dec_string(l).len()) + " | "@ + line_text(code, l)
}

/// The caret row under line `l` of the excerpt. A span within one line is
/// underlined from its start column for its width; the first line of a
/// longer span is underlined from the start column to the end of the
/// line; its last line is underlined from the margin through the end
/// column; lines in between are underlined whole.
pub open spec fn caret_row(
    code: Seq<char>,
    w: int,
    l: int,
    sl: int,
    sc: int,
    el: int,
    ec: int,
) -> Seq<char> {
    let llen = find_nl(code, line_start(code, l)) - line_start(code, l);
    spaces(w) + " | "@ + (if sl == el {
        spaces(sc - 1) + carets(ec - sc + 1)
    } else if l == sl {
        spaces(sc - 1) + carets(llen - sc + 1)
    } else if l == el {
        carets(ec + 1)
    } else {
        carets(llen)
    })
}

/// The excerpt's lines from line `l` on: each line the span touches, as
/// long as the text still has it, followed by its caret row.
pub open spec fn body_lines(
    code: Seq<char>,
    w: int,
    sl: int,
    sc: int,
    el: int,
    ec: int,
    l: int,
) -> Seq<Seq<char>>
    decreases el + 1 - l,
{
    if l > el || line_start(code, l) >= code.len() {
        Seq::empty()
    } else {
        seq![numbered_line(code, w, l), caret_row(code, w, l, sl, sc, el, ec)] + body_lines(
            code,
            w,
            sl,
            sc,
            el,
            ec,
            l + 1,
        )
    }
}

/// The context lines of the report, each behind a `= ` gutter.
pub open spec fn context_lines(w: int, ctx: Seq<Seq<char>>) -> Seq<Seq<char>>
    decreases ctx.len(),
{
    if ctx.len() == 0 {
        Seq::empty()
    } else {
        seq![spaces(w) + " = "@ + ctx[0]] + context_lines(w, ctx.drop_first())
    }
}

/// The note lines of the report, each behind a `= note: ` gutter.
pub open spec fn note_lines(w: int, notes: Seq<Seq<char>>) -> Seq<Seq<char>>
    decreases notes.len(),
{
    if notes.len() == 0 {
        Seq::empty()
    } else {
        seq![spaces(w) + " = note: "@ + notes[0]] + note_lines(w, notes.drop_first())
    }
}

/// The closing lines: nothing without context and notes, otherwise a
/// separator gutter line, the context lines, and the note lines.
pub open spec fn tail_lines(w: int, ctx: Seq<Seq<char>>, notes: Seq<Seq<char>>) -> Seq<Seq<char>> {
    if ctx.len() == 0 && notes.len() == 0 {
        Seq::empty()
    } else {
        seq![gutter_line(w)] + context_lines(w, ctx) + note_lines(w, notes)
    }
}

/// The whole rendered report for a message, a source text, a span from
/// `start` to `end`, and the context and note lines: the header, the
/// location line, a separator, the annotated excerpt, and the tail.
pub open spec fn spec_render(
    msg: Seq<char>,
    file: Seq<char>,
    code: Seq<char>,
    start: int,
    end: int,
    ctx: Seq<Seq<char>>,
    notes: Seq<Seq<char>>,
) -> Seq<Seq<char>> {
    let sl = line_of(code, start);
    let sc = col_of(code, start);
    let el = line_of(code, end);
    let ec = col_of(code, end) - 1;
    let w = gutter_width(sl, el);
    seq![header_line(msg), location_line(file, sl, sc, el, ec, w), gutter_line(w)] + body_lines(
        code,
        w,
        sl,
        sc,
        el,
        ec,
        sl,
    ) + tail_lines(w, ctx, notes)
}

/// A span within a single source line is underlined by a caret row that
/// carries exactly one caret per spanned character — `end - start` of
/// them — indented to begin exactly under the span's start column.
pub proof fn lemma_single_line_caret_count(
    msg: Seq<char>,
    file: Seq<char>,
    code: Seq<char>,
    start: int,
    end: int,
    ctx: Seq<Seq<char>>,
    notes: Seq<Seq<char>>,
)
    requires
        0 <= start < end <= code.len(),
        line_of(code, start) == line_of(code, end),
    ensures
        ({
            let r = spec_render(msg, file, code, start, end, ctx, notes);
            let sl = line_of(code, start);
            let sc = col_of(code, start);
            let w = gutter_width(sl, sl);
            &&& r.len() >= 5
            &&& r[3] == numbered_line(code, w, sl)
            &&& r[4] == spaces(w) + " | "@ + spaces(sc - 1) + carets(end - start)
        }),
{
    let sl = line_of(code, start);
    let sc = col_of(code, start);
    let el = line_of(code, end);
    let ec = col_of(code, end) - 1;
    let w = gutter_width(sl, el);
    lemma_line_start_of_loc(code, start);
    lemma_loc_bounds(code, start);
    lemma_same_line_col(code, start, end);
    assert(line_start(code, sl) < code.len());
    assert(body_lines(code, w, sl, sc, el, ec, sl + 1) =~= Seq::<Seq<char>>::empty());
    assert(body_lines(code, w, sl, sc, el, ec, sl) =~= seq![
        numbered_line(code, w, sl),
        caret_row(code, w, sl, sl, sc, el, ec),
    ]);
    assert(ec - sc + 1 == end - start);
    let r = spec_render(msg, file, code, start, end, ctx, notes);
    assert(r[3] == numbered_line(code, w, sl));
    assert(r[4] == caret_row(code, w, sl, sl, sc, el, ec));
}

/// A span crossing two source lines is underlined twice: the first line
/// from the span's start column to that line's end, and the second line
/// from the margin through the span's last column — the end column plus
/// one carets.
pub proof fn lemma_two_line_caret_count(
    msg: Seq<char>,
    file: Seq<char>,
    code: Seq<char>,
    start: int,
    end: int,
    ctx: Seq<Seq<char>>,
    notes: Seq<Seq<char>>,
)
    requires
        0 <= start < end <= code.len(),
        line_of(code, end) == line_of(code, start) + 1,
        end < code.len() || code[code.len() - 1] != '\n',
    ensures
        ({
            let r = spec_render(msg, file, code, start, end, ctx, notes);
            let sl = line_of(code, start);
            let el = line_of(code, end);
            let sc = col_of(code, start);
            let w = gutter_width(sl, el);
            &&& r.len() >= 7
            &&& r[3] == numbered_line(code, w, sl)
            &&& r[4] == spaces(w) + " | "@ + spaces(sc - 1) + carets(
                line_text(code, sl).len() - sc + 1,
            )
            &&& r[5] == numbered_line(code, w, el)
            &&& r[6] == spaces(w) + " | "@ + carets(col_of(code, end))
        }),
{
    let sl = line_of(code, start);
    let sc = col_of(code, start);
    let el = line_of(code, end);
    let ec = col_of(code, end) - 1;
    let w = gutter_width(sl, el);
    lemma_line_start_of_loc(code, start);
    lemma_line_start_of_loc(code, end);
    lemma_loc_bounds(code, start);
    lemma_loc_bounds(code, end);
    assert(line_start(code, sl) < code.len());
    if end == code.len() {
        lemma_loc_bounds(code, end - 1);
        assert(line_start_before(code, end) <= end - 1);
    }
    assert(line_start(code, el) < code.len());
    assert(body_lines(code, w, sl, sc, el, ec, el + 1) =~= Seq::<Seq<char>>::empty());
    assert(body_lines(code, w, sl, sc, el, ec, el) =~= seq![
        numbered_line(code, w, el),
        caret_row(code, w, el, sl, sc, el, ec),
    ]);
    assert(body_lines(code, w, sl, sc, el, ec, sl) =~= seq![
        numbered_line(code, w, sl),
        caret_row(code, w, sl, sl, sc, el, ec),
        numbered_line(code, w, el),
        caret_row(code, w, el, sl, sc, el, ec),
    ]);
    lemma_find_nl_props(code, line_start(code, sl));
    assert(line_text(code, sl).len() == find_nl(code, line_start(code, sl)) - line_start(
        code,
        sl,
    ));
    let r = spec_render(msg, file, code, start, end, ctx, notes);
    assert(r[3] == numbered_line(code, w, sl));
    assert(r[4] == caret_row(code, w, sl, sl, sc, el, ec));
    assert(r[5] == numbered_line(code, w, el));
    assert(r[6] == caret_row(code, w, el, sl, sc, el, ec));
}

/// The string holding a single decimal digit.
fn digit_str(d: usize) -> (s: &'static str)
    requires
        d < 10,
    ensures
        s@ == seq![dec_digit(d as int)],
{
    let s: &'static str = if d == 0 {
        "0"
    } else if d == 1 {
        "1"
    } else if d == 2 {
        "2"
    } else if d == 3 {
        "3"
    } else if d == 4 {
        "4"
    } else if d == 5 {
        "5"
    } else if d == 6 {
        "6"
    } else if d == 7 {
        "7"
    } else if d == 8 {
        "8"
    } else {
        "9"
    };
    proof {
        reveal_strlit("0");
        reveal_strlit("1");
        reveal_strlit("2");
        reveal_strlit("3");
        reveal_strlit("4");
        reveal_strlit("5");
        reveal_strlit("6");
        reveal_strlit("7");
        reveal_strlit("8");
        reveal_strlit("9");
        assert(s@ =~= seq![dec_digit(d as int)]);
    }
    s
}

/// Renders a number in decimal.
fn dec_to_string(n: usize) -> (s: String)
    ensures
        s@ == dec_string(n as int),
    decreases n,
{
    if n < 10 {
        digit_str(n).to_owned()
    } else {
        let mut s = dec_to_string(n / 10);
        s.append(digit_str(n % 10));
        proof {
            assert(s@ =~= dec_string(n as int));
        }
        s
    }
}

/// A decimal rendering holds at least one digit.
proof fn lemma_dec_len_pos(n: int)
    ensures
        dec_string(n).len() >= 1,
    decreases n,
{
    if n >= 10 {
        lemma_dec_len_pos(n / 10);
    }
}

/// A larger number never renders shorter: the gutter is wide enough for
/// every line number up to the largest one shown.
proof fn lemma_dec_len_monotone(a: int, b: int)
    requires
        0 <= a <= b,
    ensures
        dec_string(a).len() <= dec_string(b).len(),
    decreases b,
{
    if b >= 10 {
        if a < 10 {
            lemma_dec_len_pos(b / 10);
        } else {
            vstd::arithmetic::div_mod::lemma_div_is_ordered(a, b, 10);
            lemma_dec_len_monotone(a / 10, b / 10);
        }
    }
}

/// Builds a run of `n` spaces.
fn spaces_string(n: usize) -> (s: String)
    ensures
        s@ == spaces(n as int),
{
    let mut s = String::new();
    let mut i: usize = 0;
    proof {
        assert(s@ =~= spaces(0));
    }
    while i < n
        invariant
            i <= n,
            s@ == spaces(i as int),
        decreases n - i,
    {
        s.append(" ");
        i = i + 1;
        proof {
            reveal_strlit(" ");
            assert(s@ =~= spaces(i as int));
        }
    }
    s
}

/// Builds a run of `n` carets.
fn carets_string(n: usize) -> (s: String)
    ensures
        s@ == carets(n as int),
{
    let mut s = String::new();
    let mut i: usize = 0;
    proof {
        assert(s@ =~= carets(0));
    }
    while i < n
        invariant
            i <= n,
            s@ == carets(i as int),
        decreases n - i,
    {
        s.append("^");
        i = i + 1;
        proof {
            reveal_strlit("^");
            assert(s@ =~= carets(i as int));
        }
    }
    s
}

/// A diagnostic error. It owns a copy of the source text it refers to, so
/// a report can be rendered from the error alone.
#[derive(Debug)]
pub struct Error {
    /// The message describing the issue.
    pub message: String,
    /// The display name of the source text.
    pub filename: String,
    /// The source text the span points into.
    pub code: String,
    /// The span in the source text where the error occurred.
    pub span: Span,
    /// Context lines, printed after the excerpt.
    pub context: Vec<String>,
    /// Note lines, printed after the context.
    pub notes: Vec<String>,
}

impl Error {
    /// The data needed for rendering is validated at construction: the
    /// span covers at least one character and lies within the text.
    pub open spec fn wf(&self) -> bool {
        &&& self.span.start < self.span.end <= self.code@.len()
        &&& self.code@.len() < usize::MAX - 1
    }

    /// Creates a new `Error` over the given source text and span.
    pub fn new(message: String, source: &Source, span: Span) -> (e: Error)
        requires
            span.start < span.end <= source.code@.len(),
            source.code@.len() < usize::MAX - 1,
        ensures
            e.wf(),
            e.message == message,
            e.filename@ == source.filename@,
            e.code@ == source.code@,
            e.span == span,
            e.context@ =~= Seq::<String>::empty(),
            e.notes@ =~= Seq::<String>::empty(),
    {
        Error {
            message,
            filename: source.filename.clone(),
            code: source.code.clone(),
            span,
            context: Vec::new(),
            notes: Vec::new(),
        }
    }

    /// Appends a context line and returns the error, for chaining.
    pub fn with_context(self, context: String) -> (e: Error)
        ensures
            e.message == self.message,
            e.filename == self.filename,
            e.code == self.code,
            e.span == self.span,
            e.context@ == self.context@.push(context),
            e.notes == self.notes,
    {
        let mut e = self;
        e.context.push(context);
        e
    }

    /// Appends a note line and returns the error, for chaining.
    pub fn with_note(self, note: String) -> (e: Error)
        ensures
            e.message == self.message,
            e.filename == self.filename,
            e.code == self.code,
            e.span == self.span,
            e.context == self.context,
            e.notes@ == self.notes@.push(note),
    {
        let mut e = self;
        e.notes.push(note);
        e
    }

    /// Renders the error as the lines of a human-readable report: the
    /// header, the location line, a separator, every source line the span
    /// touches with a caret row aligned under it, and the context and
    /// note lines.
    pub fn render_lines(&self) -> (r: Vec<String>)
        requires
            self.wf(),
        ensures
            r.deep_view() == spec_render(
                self.message@,
                self.filename@,
                self.code@,
                self.span.start as int,
                self.span.end as int,
                self.context.deep_view(),
                self.notes.deep_view(),
            ),
    {
        let code = self.code.as_str();
        let ghost cs = self.code@;
        let ghost msgv = self.message@;
        let ghost filev = self.filename@;
        let ghost ctxv = self.context.deep_view();
        let ghost notesv = self.notes.deep_view();
        let start = self.span.start;
        let end = self.span.end;
        proof {
            lemma_loc_bounds(cs, start as int);
            lemma_loc_bounds(cs, end as int);
            lemma_line_monotone(cs, start as int, end as int);
        }
        let (sl, sc) = location_to_line_col(code, start);
        let (el, ec1) = location_to_line_col(code, end);
        let ec = ec1 - 1;
        let maxl = if sl >= el {
            sl
        } else {
            el
        };
        let wstr = dec_to_string(maxl);
        let w = wstr.as_str().unicode_len();
        proof {
            assert(w as int == gutter_width(sl as int, el as int));
        }
        let mut out: Vec<String> = Vec::new();

        let mut h = String::from_str("error: ");
        h.append(self.message.as_str());
        proof {
            assert(h@ =~= header_line(msgv));
        }
        out.push(h);

        let mut loc = spaces_string(w);
        loc.append("--> ");
        loc.append(self.filename.as_str());
        loc.append(":");
        loc.append(dec_to_string(sl).as_str());
        loc.append(":");
        loc.append(dec_to_string(sc).as_str());
        if sl == el {
            if sc != ec {
                loc.append("-");
                loc.append(dec_to_string(ec).as_str());
            }
        } else {
            loc.append("-");
            loc.append(dec_to_string(el).as_str());
            loc.append(":");
            loc.append(dec_to_string(ec).as_str());
        }
        proof {
            assert(loc@ =~= location_line(
                filev,
                sl as int,
                sc as int,
                el as int,
                ec as int,
                w as int,
            ));
        }
        out.push(loc);

        let mut g = spaces_string(w);
        g.append(" |");
        proof {
            assert(g@ =~= gutter_line(w as int));
        }
        out.push(g);
        proof {
            assert(out.deep_view() =~= seq![
                header_line(msgv),
                location_line(filev, sl as int, sc as int, el as int, ec as int, w as int),
                gutter_line(w as int),
            ]);
        }
        let ghost prefix = out.deep_view();

        let ls0 = scan_line_start(code, start);
        proof {
            lemma_line_start_of_loc(cs, start as int);
        }
        let len = code.unicode_len();
        let mut l = sl;
        let mut cur = ls0;
        while l <= el && cur < len
            invariant
                self.wf(),
                cs == self.code@,
                code@ == cs,
                len == cs.len() < usize::MAX - 1,
                start == self.span.start,
                end == self.span.end,
                start < end <= len,
                sl == line_of(cs, start as int),
                sc == col_of(cs, start as int),
                el == line_of(cs, end as int),
                ec == col_of(cs, end as int) - 1,
                ec <= len,
                1 <= sc,
                1 <= sl <= l,
                sl <= el <= len + 1,
                maxl as int == (if sl as int >= el as int { sl as int } else { el as int }),
                w == gutter_width(sl as int, el as int),
                w == dec_string(maxl as int).len(),
                cur == line_start(cs, l as int),
                out.deep_view() + body_lines(
                    cs,
                    w as int,
                    sl as int,
                    sc as int,
                    el as int,
                    ec as int,
                    l as int,
                ) == prefix + body_lines(
                    cs,
                    w as int,
                    sl as int,
                    sc as int,
                    el as int,
                    ec as int,
                    sl as int,
                ),
            decreases el + 1 - l,
        {
            let e = find_newline(code, cur);
            let ltext = code.substring_char(cur, e);
            let mut nline = dec_to_string(l);
            let dl = nline.as_str().unicode_len();
            proof {
                lemma_dec_len_monotone(l as int, maxl as int);
            }
            nline.append(spaces_string(w - dl).as_str());
            nline.append(" | ");
            nline.append(ltext);
            proof {
                assert(nline@ =~= numbered_line(cs, w as int, l as int));
            }

            let mut crow = spaces_string(w);
            crow.append(" | ");
            if sl == el {
                proof {
                    lemma_same_line_col(cs, start as int, end as int);
                }
                crow.append(spaces_string(sc - 1).as_str());
                crow.append(carets_string(ec + 1 - sc).as_str());
            } else if l == sl {
                proof {
                    lemma_line_start_of_loc(cs, start as int);
                    lemma_loc_bounds(cs, start as int);
                    lemma_lsb_no_nl(cs, start as int);
                    lemma_find_nl_at_least(cs, cur as int, start as int);
                }
                crow.append(spaces_string(sc - 1).as_str());
                crow.append(carets_string(e - cur + 1 - sc).as_str());
            } else if l == el {
                crow.append(carets_string(ec + 1).as_str());
            } else {
                crow.append(carets_string(e - cur).as_str());
            }
            proof {
                assert(crow@ =~= caret_row(
                    cs,
                    w as int,
                    l as int,
                    sl as int,
                    sc as int,
                    el as int,
                    ec as int,
                ));
            }
            let ghost out0 = out.deep_view();
            out.push(nline);
            out.push(crow);
            proof {
                assert(out.deep_view() =~= out0 + seq![
                    numbered_line(cs, w as int, l as int),
                    caret_row(cs, w as int, l as int, sl as int, sc as int, el as int, ec as int),
                ]);
                assert(out.deep_view() + body_lines(
                    cs,
                    w as int,
                    sl as int,
                    sc as int,
                    el as int,
                    ec as int,
                    l as int + 1,
                ) =~= out0 + body_lines(
                    cs,
                    w as int,
                    sl as int,
                    sc as int,
                    el as int,
                    ec as int,
                    l as int,
                ));
            }
            l = l + 1;
            cur = e + 1;
        }
        proof {
            assert(body_lines(cs, w as int, sl as int, sc as int, el as int, ec as int, l as int)
                =~= Seq::<Seq<char>>::empty());
            assert(out.deep_view() =~= prefix + body_lines(
                cs,
                w as int,
                sl as int,
                sc as int,
                el as int,
                ec as int,
                sl as int,
            ));
        }
        let ghost base = out.deep_view();

        if self.context.len() > 0 || self.notes.len() > 0 {
            let mut g2 = spaces_string(w);
            g2.append(" |");
            out.push(g2);
            proof {
                assert(out.deep_view() =~= base + seq![gutter_line(w as int)]);
            }
            let ghost base2 = out.deep_view();
            proof {
                assert(ctxv.skip(0) =~= ctxv);
            }
            let mut i: usize = 0;
            while i < self.context.len()
                invariant
                    i <= self.context.len(),
                    ctxv == self.context.deep_view(),
                    w as int == gutter_width(line_of(cs, start as int), line_of(cs, end as int)),
                    out.deep_view() + context_lines(w as int, ctxv.skip(i as int)) == base2
                        + context_lines(w as int, ctxv),
                decreases self.context.len() - i,
            {
                let mut cl = spaces_string(w);
                cl.append(" = ");
                cl.append(self.context[i].as_str());
                let ghost outc = out.deep_view();
                out.push(cl);
                proof {
                    assert(ctxv.skip(i as int)[0] == ctxv[i as int]);
                    assert(ctxv.skip(i as int).drop_first() =~= ctxv.skip(i as int + 1));
                    assert(out.deep_view() =~= outc + seq![spaces(w as int) + " = "@ + ctxv[i as int]]);
                    assert(out.deep_view() + context_lines(w as int, ctxv.skip(i as int + 1)) =~= outc
                        + context_lines(w as int, ctxv.skip(i as int)));
                }
                i = i + 1;
            }
            proof {
                assert(ctxv.skip(i as int) =~= Seq::<Seq<char>>::empty());
                assert(out.deep_view() =~= base2 + context_lines(w as int, ctxv));
            }
            let ghost base3 = out.deep_view();
            proof {
                assert(notesv.skip(0) =~= notesv);
            }
            let mut j: usize = 0;
            while j < self.notes.len()
                invariant
                    j <= self.notes.len(),
                    notesv == self.notes.deep_view(),
                    w as int == gutter_width(line_of(cs, start as int), line_of(cs, end as int)),
                    out.deep_view() + note_lines(w as int, notesv.skip(j as int)) == base3
                        + note_lines(w as int, notesv),
                decreases self.notes.len() - j,
            {
                let mut nl = spaces_string(w);
                nl.append(" = note: ");
                nl.append(self.notes[j].as_str());
                let ghost outn = out.deep_view();
                out.push(nl);
                proof {
                    assert(notesv.skip(j as int)[0] == notesv[j as int]);
                    assert(notesv.skip(j as int).drop_first() =~= notesv.skip(j as int + 1));
                    assert(out.deep_view() =~= outn + seq![
                        spaces(w as int) + " = note: "@ + notesv[j as int],
                    ]);
                    assert(out.deep_view() + note_lines(w as int, notesv.skip(j as int + 1)) =~= outn
                        + note_lines(w as int, notesv.skip(j as int)));
                }
                j = j + 1;
            }
            proof {
                assert(notesv.skip(j as int) =~= Seq::<Seq<char>>::empty());
                assert(out.deep_view() =~= base3 + note_lines(w as int, notesv));
                assert(out.deep_view() =~= base + tail_lines(w as int, ctxv, notesv));
            }
        } else {
            proof {
                assert(ctxv.len() == 0 && notesv.len() == 0);
                assert(out.deep_view() =~= base + tail_lines(w as int, ctxv, notesv));
            }
        }
        proof {
            assert(out.deep_view() =~= spec_render(
                msgv,
                filev,
                cs,
                start as int,
                end as int,
                ctxv,
                notesv,
            ));
        }
        out
    }
}

} // verus!
