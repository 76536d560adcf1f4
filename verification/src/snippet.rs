//! Rows of a source file, written out with their keywords emphasised and
//! with the columns that a diagnostic points at underlined.
//!
//! A file is a grid of text: rows are counted from 1, columns from 0, in
//! characters. Row numbers are wider than lengths, so that the row after the
//! last row of any file has a number.

use vstd::prelude::*;
use crate::pattern::{found, Pattern};
use crate::style::{
    all_plain, joined, lemma_plain_is_unchanged, lemma_visible_adds, lemma_visible_one, paints,
    piece, plain,
    push_span, visible, Piece, Span, Style,
};
use crate::text::{
    chars_of, decimal, indent, indent_of, is_blank, push_decimal, push_repeated, push_shadow,
    repeated, shadow, text_of, text_of_char,
};

verus! {

/// What stands for a row that the file does not have.
pub open spec fn missing_row() -> Seq<char> {
    "<NO SUCH LINE>"@
}

/// The end of an output line.
pub open spec fn line_break() -> Piece {
    plain(seq!['\n'])
}

/// The text of row `row`, where the file has such a row.
pub open spec fn row_at(rows: Seq<Seq<char>>, row: nat) -> Option<Seq<char>> {
    if 1 <= row <= rows.len() {
        Some(rows[row - 1])
    } else {
        None
    }
}

/// The text of row `row` as columns are counted on it: a row that the file
/// does not have is empty.
pub open spec fn measured(rows: Seq<Seq<char>>, row: nat) -> Seq<char> {
    match row_at(rows, row) {
        Some(text) => text,
        None => Seq::empty(),
    }
}

/// Whether the search for keywords goes on behind a match: it does not
/// behind an empty match at the very start, which would leave all of the
/// text to be searched again.
pub open spec fn leads_on(hit: Option<(Seq<char>, Seq<char>, Seq<char>)>) -> bool {
    match hit {
        Some((before, word, after)) => before.len() + word.len() > 0,
        None => false,
    }
}

/// What a match adds to a line that is written: the text before it as it
/// is, and the match as a keyword.
pub open spec fn keyword_pieces(hit: Option<(Seq<char>, Seq<char>, Seq<char>)>) -> Seq<Piece> {
    match hit {
        Some((before, word, after)) => if leads_on(hit) {
            seq![plain(before), piece(word, Style::Bold)]
        } else {
            Seq::empty()
        },
        None => Seq::empty(),
    }
}

/// What is left to search behind a match.
pub open spec fn behind(hit: Option<(Seq<char>, Seq<char>, Seq<char>)>) -> Option<Seq<char>> {
    match hit {
        Some((before, word, after)) => if leads_on(hit) {
            Some(after)
        } else {
            None
        },
        None => None,
    }
}

/// Writes what a match of the keyword pattern adds, and returns what is left
/// to search: nothing where there was no match, or none that leads on.
pub fn take_keyword(hit: Option<(String, String, String)>, out: &mut Vec<Span>) -> (rest: Option<
    String,
>)
    ensures
        final(out).deep_view() == old(out).deep_view() + keyword_pieces(hit.deep_view()),
        rest.deep_view() == behind(hit.deep_view()),
{
    match hit {
        Some((before, word, after)) => {
            if before.as_str().is_empty() && word.as_str().is_empty() {
                assert(out.deep_view() =~= old(out).deep_view() + Seq::<Piece>::empty());
                None
            } else {
                let ghost pieces = seq![plain(before@), piece(word@, Style::Bold)];
                push_span(out, before, Style::Plain);
                push_span(out, word, Style::Bold);
                assert(out.deep_view() =~= old(out).deep_view() + pieces);
                Some(after)
            }
        },
        None => {
            assert(out.deep_view() =~= old(out).deep_view() + Seq::<Piece>::empty());
            None
        },
    }
}

/// `line` with its keywords emphasised. The keywords are the matches of
/// `keys`, looked for from left to right: the search goes on right behind
/// each match, and what stands between the matches, and behind the last, is
/// plain. A match cuts the line into what stands before it, the match and
/// what stands after it.
pub open spec fn colored_keywords(keys: Seq<char>, line: Seq<char>) -> Seq<Piece>
    decreases line.len(),
{
    match found(keys, line) {
        Some((before, word, after)) => if before + word + after == line && leads_on(
            found(keys, line),
        ) {
            keyword_pieces(found(keys, line)) + colored_keywords(keys, after)
        } else {
            seq![plain(line)]
        },
        None => seq![plain(line)],
    }
}

/// Appends `line` with its keywords emphasised.
pub fn color_keywords(keys: &Pattern, line: &str, out: &mut Vec<Span>)
    ensures
        final(out).deep_view() == old(out).deep_view() + colored_keywords(keys@, line@),
{
    let mut rest: String = line.to_owned();
    let mut searching = true;
    while searching
        invariant
            out.deep_view() + colored_keywords(keys@, rest@) == old(out).deep_view()
                + colored_keywords(keys@, line@),
            !searching ==> colored_keywords(keys@, rest@) == seq![plain(rest@)],
        decreases rest@.len(), if searching { 1int } else { 0int },
    {
        let ghost so_far = out.deep_view();
        let ghost text = rest@;
        let hit = keys.find(rest.as_str());
        match take_keyword(hit, out) {
            Some(after) => {
                rest = after;
                assert(out.deep_view() + colored_keywords(keys@, rest@) =~= so_far
                    + colored_keywords(keys@, text));
            },
            None => {
                searching = false;
                assert(out.deep_view() =~= so_far);
            },
        }
    }
    let ghost so_far = out.deep_view();
    push_span(out, rest, Style::Plain);
    assert(out.deep_view() =~= so_far + seq![plain(rest@)]);
}

/// Where the keyword pattern matches nowhere in a line, the line comes out
/// as one plain piece: nothing is emphasised, and however a terminal paints
/// it, what is written is the line.
pub proof fn lemma_no_keyword_no_emphasis(keys: Seq<char>, line: Seq<char>)
    requires
        found(keys, line) is None,
    ensures
        colored_keywords(keys, line) == seq![plain(line)],
        all_plain(colored_keywords(keys, line)),
        forall|parts: Seq<Seq<char>>| #[trigger]
            paints(colored_keywords(keys, line), parts) ==> joined(parts) == line,
{
    let pieces = colored_keywords(keys, line);
    assert forall|parts: Seq<Seq<char>>| #[trigger] paints(pieces, parts) implies joined(parts)
        == line by {
        lemma_plain_is_unchanged(pieces, parts);
        lemma_visible_one(plain(line));
    }
}

/// Emphasis changes no text: whatever the keywords of a line are, what a
/// reader sees of the result is the line.
pub proof fn lemma_keywords_keep_text(keys: Seq<char>, line: Seq<char>)
    ensures
        visible(colored_keywords(keys, line)) == line,
    decreases line.len(),
{
    let pieces = colored_keywords(keys, line);
    match found(keys, line) {
        Some((before, hit, after)) => {
            if before + hit + after == line && leads_on(found(keys, line)) {
                let head = seq![plain(before), piece(hit, Style::Bold)];
                lemma_keywords_keep_text(keys, after);
                lemma_visible_adds(head, colored_keywords(keys, after));
                lemma_visible_adds(seq![plain(before)], seq![piece(hit, Style::Bold)]);
                lemma_visible_one(plain(before));
                lemma_visible_one(piece(hit, Style::Bold));
                assert(head =~= seq![plain(before)] + seq![piece(hit, Style::Bold)]);
            } else {
                lemma_visible_one(plain(line));
            }
        },
        None => {
            lemma_visible_one(plain(line));
        },
    }
}

/// The margin in front of row `row`: its number, a bar and a blank.
pub open spec fn gutter(row: nat) -> Seq<char> {
    decimal(row).push('|').push(' ')
}

/// The output line that shows row `row`: the gutter, then the row with its
/// keywords emphasised, or the words that stand for a missing row.
pub open spec fn shown_row(keys: Seq<char>, rows: Seq<Seq<char>>, row: nat) -> Seq<Piece> {
    seq![piece(gutter(row), Style::Cyan)] + (match row_at(rows, row) {
        Some(text) => colored_keywords(keys, text),
        None => seq![plain(missing_row())],
    }) + seq![line_break()]
}

/// An underline: the row it is drawn under, the column where it begins, and
/// its length.
pub struct Stroke {
    pub row: nat,
    pub from: nat,
    pub len: nat,
}

/// The underline below row `row` for a span that ends before column `end`
/// of that row. It begins at `start`, or with the first character of the row
/// that is no white space where `start` is `None`; it ends where the span
/// or the row ends, and is empty where that is before it begins.
pub open spec fn stroke(rows: Seq<Seq<char>>, row: nat, start: Option<nat>, end: nat) -> Stroke {
    let text = measured(rows, row);
    let from = match start {
        Some(s) => s,
        None => indent(text),
    };
    let upto = if end <= text.len() {
        end
    } else {
        text.len()
    };
    Stroke {
        row,
        from,
        len: if upto >= from {
            (upto - from) as nat
        } else {
            0
        },
    }
}

/// The output line that holds an underline: blanks as wide as the gutter,
/// the columns in front of the underline with their white space kept, and
/// the underline in the colour of the diagnostic.
pub open spec fn shown_stroke(rows: Seq<Seq<char>>, s: Stroke, severity: Style) -> Seq<Piece> {
    seq![
        plain(repeated(' ', gutter(s.row).len()) + shadow(measured(rows, s.row), s.from)),
        piece(repeated('~', s.len), severity),
        line_break(),
    ]
}

/// A column where an underline is to begin, where one is given, as a plain
/// number.
pub open spec fn start_of(start: Option<usize>) -> Option<nat> {
    match start {
        Some(s) => Some(s as nat),
        None => None,
    }
}

/// A span as the caller of `print_line` gives it, in plain numbers.
pub open spec fn span_of(span: Option<(Option<usize>, usize)>) -> Option<(Option<nat>, nat)> {
    match span {
        Some((start, end)) => Some((start_of(start), end as nat)),
        None => None,
    }
}

/// What `print_line` writes: the row, and below it the underline where a
/// span is given.
pub open spec fn printed_line(
    keys: Seq<char>,
    rows: Seq<Seq<char>>,
    row: nat,
    span: Option<(Option<nat>, nat)>,
    severity: Style,
) -> Seq<Piece> {
    shown_row(keys, rows, row) + (match span {
        Some((start, end)) => shown_stroke(rows, stroke(rows, row, start, end), severity),
        None => Seq::empty(),
    })
}

/// Writes row `row` of `file`, and the underline of `span` below it where
/// one is given. Returns the length of the row, which is 0 for a row that
/// the file does not have.
pub fn print_line(
    keys: &Pattern,
    file: &Vec<String>,
    row: u128,
    span: Option<(Option<usize>, usize)>,
    severity: Style,
    out: &mut Vec<Span>,
) -> (len: usize)
    ensures
        final(out).deep_view() == old(out).deep_view() + printed_line(
            keys@,
            file.deep_view(),
            row as nat,
            span_of(span),
            severity,
        ),
        len == measured(file.deep_view(), row as nat).len(),
{
    let ghost rows = file.deep_view();
    let mut margin: Vec<char> = Vec::new();
    push_decimal(&mut margin, row);
    margin.push('|');
    margin.push(' ');
    assert(margin@ =~= gutter(row as nat));
    let width = margin.len();
    push_span(out, text_of(&margin), Style::Cyan);
    let ghost with_gutter = out.deep_view();
    let present = 1 <= row && row <= file.len() as u128;
    let chars: Vec<char> = if present {
        let text = &file[(row - 1) as usize];
        assert(text@ == rows[row - 1]);
        color_keywords(keys, text.as_str(), out);
        chars_of(text.as_str())
    } else {
        push_span(out, "<NO SUCH LINE>".to_owned(), Style::Plain);
        assert(out.deep_view() =~= with_gutter + seq![plain(missing_row())]);
        Vec::new()
    };
    assert(chars@ =~= measured(rows, row as nat));
    let ghost with_row = out.deep_view();
    push_span(out, text_of_char('\n'), Style::Plain);
    assert(out.deep_view() =~= old(out).deep_view() + shown_row(keys@, rows, row as nat));
    let ghost shown = out.deep_view();
    match span {
        Some((start, end)) => {
            let from = match start {
                Some(s) => s,
                None => indent_of(&chars),
            };
            let upto = if end <= chars.len() {
                end
            } else {
                chars.len()
            };
            let n = if upto >= from {
                upto - from
            } else {
                0
            };
            let ghost s = stroke(rows, row as nat, start_of(start), end as nat);
            assert(s.from == from && s.len == n && s.row == row);
            let mut under: Vec<char> = Vec::new();
            push_repeated(&mut under, ' ', width);
            push_shadow(&mut under, &chars, from);
            assert(under@ =~= repeated(' ', gutter(s.row).len()) + shadow(
                measured(rows, s.row),
                s.from,
            ));
            push_span(out, text_of(&under), Style::Plain);
            let mut line: Vec<char> = Vec::new();
            push_repeated(&mut line, '~', n);
            assert(line@ =~= repeated('~', s.len));
            push_span(out, text_of(&line), severity);
            push_span(out, text_of_char('\n'), Style::Plain);
            assert(out.deep_view() =~= shown + shown_stroke(rows, s, severity));
        },
        None => {
            assert(out.deep_view() =~= shown + Seq::<Piece>::empty());
        },
    }
    chars.len()
}

/// The underlines of a span that begins in row `row` at column `start` and
/// ends before column `end`, the columns counted on from the start of that
/// row with one column for each line break. Row after row is underlined
/// until the span ends within a row, or a row is missing.
pub open spec fn strokes(rows: Seq<Seq<char>>, row: nat, start: Option<nat>, end: nat) -> Seq<
    Stroke,
>
    decreases
            (if row <= rows.len() {
                rows.len() + 1 - row
            } else {
                0
            }),
{
    let here = stroke(rows, row, start, end);
    if 1 <= row <= rows.len() && end > rows[row - 1].len() {
        seq![here] + strokes(rows, row + 1, None, (end - rows[row - 1].len() - 1) as nat)
    } else {
        seq![here]
    }
}

/// The number of underline characters in all the strokes together.
pub open spec fn drawn(strokes: Seq<Stroke>) -> nat
    decreases strokes.len(),
{
    if strokes.len() == 0 {
        0
    } else {
        strokes[0].len + drawn(strokes.skip(1))
    }
}

/// The columns of a span that no underline shows: one for each line break
/// that the span runs over, and the columns in front of the underline in
/// each row but the first.
pub open spec fn passed_over(strokes: Seq<Stroke>) -> nat
    decreases strokes.len(),
{
    if strokes.len() <= 1 {
        0
    } else {
        1 + strokes[1].from + passed_over(strokes.skip(1))
    }
}

/// Whether the span lies within the file: it ends in a row that the file
/// has, it begins within its first row, and it does not end within the
/// indentation of its last row.
pub open spec fn span_fits(rows: Seq<Seq<char>>, row: nat, start: Option<nat>, end: nat) -> bool
    decreases
            (if row <= rows.len() {
                rows.len() + 1 - row
            } else {
                0
            }),
{
    &&& 1 <= row <= rows.len()
    &&& if end > rows[row - 1].len() {
        &&& stroke(rows, row, start, end).from <= rows[row - 1].len()
        &&& span_fits(rows, row + 1, None, (end - rows[row - 1].len() - 1) as nat)
    } else {
        stroke(rows, row, start, end).from <= end
    }
}

/// A span is underlined in no more rows than the file has, and one: the
/// writing of a span ends, however far the span reaches beyond the file.
pub proof fn lemma_span_ends(rows: Seq<Seq<char>>, row: nat, start: Option<nat>, end: nat)
    ensures
        1 <= strokes(rows, row, start, end).len() <= rows.len() + 1,
        1 <= row <= rows.len() ==> strokes(rows, row, start, end).len() <= rows.len() + 2 - row,
        !(1 <= row <= rows.len()) ==> strokes(rows, row, start, end).len() == 1,
    decreases
            (if row <= rows.len() {
                rows.len() + 1 - row
            } else {
                0
            }),
{
    if 1 <= row <= rows.len() && end > rows[row - 1].len() {
        lemma_span_ends(rows, row + 1, None, (end - rows[row - 1].len() - 1) as nat);
    }
}

/// Every column of a span that lies within the file is accounted for: the
/// underline characters in all its rows, the line breaks it runs over and
/// the indentation it skips in the rows after the first add up to the
/// distance from its first column to its end.
pub proof fn lemma_span_columns(rows: Seq<Seq<char>>, row: nat, start: Option<nat>, end: nat)
    requires
        span_fits(rows, row, start, end),
    ensures
        drawn(strokes(rows, row, start, end)) + passed_over(strokes(rows, row, start, end)) == end
            - strokes(rows, row, start, end)[0].from,
    decreases
            (if row <= rows.len() {
                rows.len() + 1 - row
            } else {
                0
            }),
{
    let all = strokes(rows, row, start, end);
    let here = stroke(rows, row, start, end);
    if end > rows[row - 1].len() {
        let left = (end - rows[row - 1].len() - 1) as nat;
        let rest = strokes(rows, row + 1, None, left);
        lemma_span_columns(rows, row + 1, None, left);
        lemma_span_ends(rows, row + 1, None, left);
        assert(all =~= seq![here] + rest);
        assert(all.skip(1) =~= rest);
        assert(all[1] == rest[0]);
        assert(drawn(all) == here.len + drawn(rest));
        assert(passed_over(all) == 1 + rest[0].from + passed_over(rest));
    } else {
        assert(all =~= seq![here]);
        assert(all.skip(1) =~= Seq::<Stroke>::empty());
        assert(drawn(all) == here.len + drawn(all.skip(1)));
    }
}

/// Where no row but the first begins with white space within the span,
/// only the line breaks are passed over: the underline characters and one
/// column for each line break add up to the distance from the first column
/// of the span to its end.
pub proof fn lemma_span_columns_flush_left(rows: Seq<Seq<char>>, row: nat, start: nat, end: nat)
    requires
        span_fits(rows, row, Some(start), end),
        forall|j: int|
            1 <= j < strokes(rows, row, Some(start), end).len() ==> (#[trigger] strokes(
                rows,
                row,
                Some(start),
                end,
            )[j]).from == 0,
    ensures
        drawn(strokes(rows, row, Some(start), end)) + (strokes(rows, row, Some(start), end).len()
            - 1) == end - start,
{
    let all = strokes(rows, row, Some(start), end);
    lemma_span_columns(rows, row, Some(start), end);
    lemma_span_ends(rows, row, Some(start), end);
    lemma_line_breaks_only(all);
}

/// Strokes that begin in column 0 in every row but the first pass over
/// nothing but the line breaks between the rows.
proof fn lemma_line_breaks_only(strokes: Seq<Stroke>)
    requires
        strokes.len() >= 1,
        forall|j: int| 1 <= j < strokes.len() ==> (#[trigger] strokes[j]).from == 0,
    ensures
        passed_over(strokes) == strokes.len() - 1,
    decreases strokes.len(),
{
    if strokes.len() > 1 {
        let rest = strokes.skip(1);
        assert forall|j: int| 1 <= j < rest.len() implies (#[trigger] rest[j]).from == 0 by {
            assert(rest[j] == strokes[j + 1]);
        }
        lemma_line_breaks_only(rest);
    }
}

/// The rows of the strokes, each with its underline below it.
pub open spec fn printed_strokes(
    keys: Seq<char>,
    rows: Seq<Seq<char>>,
    strokes: Seq<Stroke>,
    severity: Style,
) -> Seq<Piece>
    decreases strokes.len(),
{
    if strokes.len() == 0 {
        Seq::empty()
    } else {
        shown_row(keys, rows, strokes[0].row) + shown_stroke(rows, strokes[0], severity)
            + printed_strokes(keys, rows, strokes.skip(1), severity)
    }
}

/// Writes the rows that the span covers, each with its part of the
/// underline.
pub fn print_span(
    keys: &Pattern,
    file: &Vec<String>,
    row: u128,
    start: usize,
    end: usize,
    severity: Style,
    out: &mut Vec<Span>,
)
    ensures
        final(out).deep_view() == old(out).deep_view() + printed_strokes(
            keys@,
            file.deep_view(),
            strokes(file.deep_view(), row as nat, Some(start as nat), end as nat),
            severity,
        ),
{
    let ghost rows = file.deep_view();
    let ghost whole = printed_strokes(
        keys@,
        rows,
        strokes(rows, row as nat, Some(start as nat), end as nat),
        severity,
    );
    let mut at: u128 = row;
    let mut from: Option<usize> = Some(start);
    let mut upto: usize = end;
    let mut more = true;
    while more
        invariant
            rows == file.deep_view(),
            more ==> out.deep_view() + printed_strokes(
                keys@,
                rows,
                strokes(rows, at as nat, start_of(from), upto as nat),
                severity,
            ) == old(out).deep_view() + whole,
            !more ==> out.deep_view() == old(out).deep_view() + whole,
        decreases
                (if more {
                    1int
                } else {
                    0int
                }),
                (if at <= file.len() {
                    file.len() + 1 - at
                } else {
                    0
                }),
    {
        let ghost so_far = out.deep_view();
        let ghost plan = strokes(rows, at as nat, start_of(from), upto as nat);
        let len = print_line(keys, file, at, Some((from, upto)), severity, out);
        let present = 1 <= at && at <= file.len() as u128;
        proof {
            assert(plan.skip(1) =~= if present && upto > len {
                strokes(rows, (at + 1) as nat, None, (upto - len - 1) as nat)
            } else {
                Seq::empty()
            });
            assert(printed_strokes(keys@, rows, plan, severity) =~= printed_line(
                keys@,
                rows,
                at as nat,
                span_of(Some((from, upto))),
                severity,
            ) + printed_strokes(keys@, rows, plan.skip(1), severity));
        }
        if present && upto > len {
            upto = upto - len - 1;
            from = None;
            at = at + 1;
            assert(out.deep_view() + printed_strokes(
                keys@,
                rows,
                strokes(rows, at as nat, None, upto as nat),
                severity,
            ) =~= so_far + printed_strokes(keys@, rows, plan, severity));
        } else {
            more = false;
            assert(out.deep_view() =~= so_far + printed_strokes(keys@, rows, plan, severity));
        }
    }
}

/// The row where the context in front of row `below + 1` begins: the nearest
/// row at or above `below` that is not blank, or row 1 where all of them
/// are blank.
pub open spec fn context_from(rows: Seq<Seq<char>>, below: nat) -> nat
    decreases below,
{
    if below <= 1 || below > rows.len() {
        1
    } else if !is_blank(rows[below - 1]) {
        below
    } else {
        context_from(rows, (below - 1) as nat)
    }
}

/// Whether context is shown in front of a span that begins in row `row` at
/// column `start`: the span begins with the first character of its row that
/// is no white space, and a row stands above it.
pub open spec fn has_context(rows: Seq<Seq<char>>, row: nat, start: nat) -> bool {
    2 <= row <= rows.len() && indent(rows[row - 1]) == start
}

/// The rows from `from` up to, and without, `to`, none underlined.
pub open spec fn printed_rows(keys: Seq<char>, rows: Seq<Seq<char>>, from: nat, to: nat) -> Seq<
    Piece,
>
    decreases to,
{
    if from >= to {
        Seq::empty()
    } else {
        printed_rows(keys, rows, from, (to - 1) as nat) + shown_row(keys, rows, (to - 1) as nat)
    }
}

/// The rows shown in front of a span for context.
pub open spec fn printed_context(
    keys: Seq<char>,
    rows: Seq<Seq<char>>,
    row: nat,
    start: nat,
) -> Seq<Piece> {
    if has_context(rows, row, start) {
        printed_rows(keys, rows, context_from(rows, (row - 1) as nat), row)
    } else {
        Seq::empty()
    }
}

/// Writes the rows that give context to a span which begins where its row
/// begins: the rows above the span, from the nearest that is not blank.
pub fn print_context(keys: &Pattern, file: &Vec<String>, row: usize, start: usize, out: &mut Vec<Span>)
    ensures
        final(out).deep_view() == old(out).deep_view() + printed_context(
            keys@,
            file.deep_view(),
            row as nat,
            start as nat,
        ),
{
    let ghost rows = file.deep_view();
    if !(2 <= row && row <= file.len()) {
        assert(out.deep_view() =~= old(out).deep_view() + Seq::<Piece>::empty());
        return ;
    }
    let first = chars_of(file[row - 1].as_str());
    assert(first@ == rows[row - 1]);
    if indent_of(&first) != start {
        assert(out.deep_view() =~= old(out).deep_view() + Seq::<Piece>::empty());
        return ;
    }
    let mut from: usize = row - 1;
    while from > 1 && is_blank_row(&file[from - 1])
        invariant
            rows == file.deep_view(),
            1 <= from <= row - 1,
            row <= file.len(),
            context_from(rows, from as nat) == context_from(rows, (row - 1) as nat),
        decreases from,
    {
        assert(file[from - 1]@ == rows[from - 1]);
        from = from - 1;
    }
    proof {
        if from > 1 {
            assert(file[from - 1]@ == rows[from - 1]);
        }
        assert(context_from(rows, from as nat) == from);
    }
    let mut at: usize = from;
    assert(out.deep_view() =~= old(out).deep_view() + printed_rows(
        keys@,
        rows,
        from as nat,
        at as nat,
    ));
    while at < row
        invariant
            rows == file.deep_view(),
            from <= at <= row,
            out.deep_view() == old(out).deep_view() + printed_rows(
                keys@,
                rows,
                from as nat,
                at as nat,
            ),
        decreases row - at,
    {
        let ghost so_far = out.deep_view();
        print_line(keys, file, at as u128, None, Style::Plain, out);
        at = at + 1;
        assert(out.deep_view() =~= old(out).deep_view() + printed_rows(
            keys@,
            rows,
            from as nat,
            at as nat,
        ));
    }
}

/// Whether nothing but white space stands in the row.
pub fn is_blank_row(row: &String) -> (b: bool)
    ensures
        b == is_blank(row@),
{
    let chars = chars_of(row.as_str());
    indent_of(&chars) == chars.len()
}

/// What is written for the span of a diagnostic: the context in front of
/// it, where it has one, and the rows it covers with their underlines.
pub open spec fn printed_snippet(
    keys: Seq<char>,
    rows: Seq<Seq<char>>,
    row: nat,
    start: nat,
    end: nat,
    severity: Style,
) -> Seq<Piece> {
    printed_context(keys, rows, row, start) + printed_strokes(
        keys,
        rows,
        strokes(rows, row, Some(start), end),
        severity,
    )
}

/// Writes the part of `file` that a diagnostic points at.
pub fn print_snippet(
    keys: &Pattern,
    file: &Vec<String>,
    row: usize,
    start: usize,
    end: usize,
    severity: Style,
    out: &mut Vec<Span>,
)
    ensures
        final(out).deep_view() == old(out).deep_view() + printed_snippet(
            keys@,
            file.deep_view(),
            row as nat,
            start as nat,
            end as nat,
            severity,
        ),
{
    print_context(keys, file, row, start, out);
    print_span(keys, file, row as u128, start, end, severity, out);
    assert(out.deep_view() =~= old(out).deep_view() + printed_snippet(
        keys@,
        file.deep_view(),
        row as nat,
        start as nat,
        end as nat,
        severity,
    ));
}

} // verus!
