//! The transcript: the output of a compiler, written out again with its
//! diagnostics set apart, coloured and shown on the source.
//!
//! The transcript reads and writes nothing itself. It takes its input from a
//! [`Charpeek`] that its owner feeds, appends what is to be written to a
//! list, and says what it needs to go on: more input, or the contents of a
//! source file. Its owner runs the loop.

use vstd::prelude::*;
use crate::charpeek::{lemma_line_len_bound, Charpeek, Tape};
use crate::classify::{
    classified, fence, fits_no_shape, formatted, label_of, print_formatted, push_fence, severity,
    shapes_compile, shown_message, stripped, Classifier, Kind, Line, Location, Place, KEYWORDS,
};
use crate::files::{bytes_of, stored, FileCache};
use crate::snippet::{line_break, print_snippet, printed_snippet};
use crate::style::{piece, plain, push_span, Piece, Span, Style};
use crate::text::{is_space_byte, is_whitespace_byte, text_of_char};

verus! {

/// The byte that an interactive compiler writes to ask for input.
pub const PROMPT: u8 = 35;

/// The byte of a blank.
pub const BLANK: u8 = 32;

/// Something to write: a byte that is passed on as it came, or text.
#[derive(Clone, Debug, PartialEq, Eq)]
pub enum Chunk {
    Raw(u8),
    Text(Span),
}

/// Something to write, as plain data.
pub enum Mark {
    Raw(u8),
    Text(Piece),
}

impl View for Chunk {
    type V = Mark;

    open spec fn view(&self) -> Mark {
        match self {
            Chunk::Raw(b) => Mark::Raw(*b),
            Chunk::Text(span) => Mark::Text(span@),
        }
    }
}

impl DeepView for Chunk {
    type V = Mark;

    open spec fn deep_view(&self) -> Mark {
        self@
    }
}

/// The pieces as things to write.
pub open spec fn texts(pieces: Seq<Piece>) -> Seq<Mark> {
    pieces.map_values(|p: Piece| Mark::Text(p))
}

/// Where the transcript stands.
#[derive(Debug, PartialEq, Eq)]
pub enum Phase {
    /// Between lines.
    Top,
    /// Behind a prompt byte: the next byte decides how the prompt is
    /// written.
    Prompt,
    /// Behind the head of a diagnostic: its file is needed.
    Header(Location),
    /// Behind the rule of a diagnostic: its message comes next.
    Message(Location),
    /// Behind the message of a diagnostic: lines that begin with white
    /// space continue it, and then its source is shown.
    Continuation(Location, Style),
    /// Behind a line that could not be read: nothing more is written.
    Done,
}

/// Where the transcript stands, as plain data.
pub enum Stage {
    Top,
    Prompt,
    Header(Place),
    Message(Place),
    Continuation(Place, Style),
    Done,
}

impl View for Phase {
    type V = Stage;

    open spec fn view(&self) -> Stage {
        match self {
            Phase::Top => Stage::Top,
            Phase::Prompt => Stage::Prompt,
            Phase::Header(location) => Stage::Header(location@),
            Phase::Message(location) => Stage::Message(location@),
            Phase::Continuation(location, style) => Stage::Continuation(location@, *style),
            Phase::Done => Stage::Done,
        }
    }
}

/// What the transcript needs to go on.
#[derive(Debug, PartialEq, Eq)]
pub enum Status {
    /// Nothing: it can take another step.
    More,
    /// More input, or the end of the input.
    NeedInput,
    /// The contents of this file.
    NeedFile(String),
    /// Nothing: the input has ended and all is written.
    Finished,
}

/// What the transcript needs to go on, as plain data.
pub enum Need {
    More,
    Input,
    File(Seq<char>),
    Finished,
}

impl Status {
    /// Whether nothing is needed for another step.
    pub fn is_more(&self) -> (b: bool)
        ensures
            b == (self@ == Need::More),
    {
        match self {
            Status::More => true,
            _ => false,
        }
    }
}

impl View for Status {
    type V = Need;

    open spec fn view(&self) -> Need {
        match self {
            Status::More => Need::More,
            Status::NeedInput => Need::Input,
            Status::NeedFile(name) => Need::File(name@),
            Status::Finished => Need::Finished,
        }
    }
}

/// A transcript as plain data: the files it knows, whether it is inside a
/// diagnostic, and where it stands.
pub struct State {
    pub files: Map<Seq<char>, Seq<Seq<char>>>,
    pub inside: bool,
    pub stage: Stage,
}

/// What a step leads to: the transcript and the reader after it, what it
/// wrote, and what is needed next.
pub struct Outcome {
    pub state: State,
    pub tape: Tape,
    pub out: Seq<Mark>,
    pub need: Need,
}

/// A step that changes and writes nothing.
pub open spec fn waiting(s: State, t: Tape, need: Need) -> Outcome {
    Outcome { state: s, tape: t, out: Seq::empty(), need }
}

/// The blank line that sets the end of a diagnostic apart from what
/// follows it.
pub open spec fn separator(inside: bool) -> Seq<Piece> {
    if inside {
        seq![line_break()]
    } else {
        Seq::empty()
    }
}

/// A line was read between diagnostics. The head of a diagnostic opens one;
/// any other line closes the diagnostic that may be open and is written in
/// the way of its kind.
pub open spec fn on_line(s: State, t: Tape, line: Seq<char>) -> Outcome {
    match classified(line) {
        Kind::Header(place) => Outcome {
            state: State { inside: true, stage: Stage::Header(place), ..s },
            tape: t,
            out: Seq::empty(),
            need: Need::More,
        },
        kind => Outcome {
            state: State { inside: false, ..s },
            tape: t,
            out: texts(separator(s.inside) + formatted(kind, line) + seq![line_break()]),
            need: Need::More,
        },
    }
}

/// A step between lines. The next byte decides: a prompt byte is taken and
/// the prompt is written with the step that follows; white space is passed
/// on as it came; with any other byte the whole line is read.
pub open spec fn at_top(s: State, t: Tape) -> Outcome {
    let seen = t.after_peek();
    match seen.peek {
        None => waiting(
            s,
            seen,
            if seen.at_end() {
                Need::Finished
            } else {
                Need::Input
            },
        ),
        Some(b) => if b == PROMPT {
            Outcome {
                state: State { stage: Stage::Prompt, ..s },
                tape: seen.after_flush(),
                out: Seq::empty(),
                need: Need::More,
            }
        } else if is_space_byte(b) {
            Outcome { state: s, tape: seen.after_flush(), out: seq![Mark::Raw(b)], need: Need::More }
        } else if !seen.line_ready() {
            waiting(s, seen, Need::Input)
        } else {
            match seen.line() {
                Some(line) => on_line(s, seen.after_line(), line),
                None => Outcome {
                    state: State { stage: Stage::Done, ..s },
                    tape: seen.after_line(),
                    out: Seq::empty(),
                    need: Need::Finished,
                },
            }
        },
    }
}

/// The prompt of an interactive compiler as it is written.
pub open spec fn prompt_glyph() -> Seq<Piece> {
    seq![line_break(), piece("λ"@, Style::GreenBold), plain(seq![' '])]
}

/// A prompt byte that no blank follows is written as it is.
pub open spec fn bare_prompt() -> Seq<Piece> {
    seq![plain(seq!['#'])]
}

/// The step behind a prompt byte. A blank behind it is taken, and the
/// prompt is written in place of both; any other byte stays where it is.
pub open spec fn at_prompt(s: State, t: Tape) -> Outcome {
    let seen = t.after_peek();
    let top = State { stage: Stage::Top, ..s };
    match seen.peek {
        None => if seen.at_end() {
            Outcome { state: top, tape: seen, out: texts(bare_prompt()), need: Need::More }
        } else {
            waiting(s, seen, Need::Input)
        },
        Some(b) => if b == BLANK {
            Outcome {
                state: top,
                tape: seen.after_flush(),
                out: texts(prompt_glyph()),
                need: Need::More,
            }
        } else {
            Outcome { state: top, tape: seen, out: texts(bare_prompt()), need: Need::More }
        },
    }
}

/// The step behind the head of a diagnostic. The file is asked for unless
/// it is known; with the file known, the rule is written.
pub open spec fn at_header(s: State, t: Tape, place: Place) -> Outcome {
    if !s.files.contains_key(place.file) {
        waiting(s, t, Need::File(place.file))
    } else {
        Outcome {
            state: State { stage: Stage::Message(place), ..s },
            tape: t,
            out: texts(
                seq![
                    line_break(),
                    piece(fence(place.file, place.row), Style::Cyan),
                    line_break(),
                ],
            ),
            need: Need::More,
        }
    }
}

/// The message of a diagnostic was read: it is written without its colour
/// codes, and its first word gives the diagnostic its colour.
pub open spec fn on_message(s: State, t: Tape, place: Place, line: Seq<char>) -> Outcome {
    Outcome {
        state: State {
            stage: Stage::Continuation(place, severity(label_of(stripped(line)))),
            ..s
        },
        tape: t,
        out: texts(shown_message(stripped(line))),
        need: Need::More,
    }
}

/// The step behind the rule of a diagnostic: the next line is its message.
/// Where the input has ended, or the line cannot be read, the message is
/// empty.
pub open spec fn at_message(s: State, t: Tape, place: Place) -> Outcome {
    if t.line_ready() {
        on_message(
            s,
            t.after_line(),
            place,
            match t.line() {
                Some(line) => line,
                None => Seq::empty(),
            },
        )
    } else if t.at_end() {
        on_message(s, t, place, Seq::empty())
    } else {
        waiting(s, t, Need::Input)
    }
}

/// The rows that are known of a file: none of a file that is not known.
pub open spec fn rows_for(files: Map<Seq<char>, Seq<Seq<char>>>, name: Seq<char>) -> Seq<
    Seq<char>,
> {
    if files.contains_key(name) {
        files[name]
    } else {
        Seq::empty()
    }
}

/// The end of a diagnostic: an empty line, and the source it points at.
pub open spec fn on_close(s: State, t: Tape, place: Place, color: Style) -> Outcome {
    Outcome {
        state: State { stage: Stage::Top, ..s },
        tape: t,
        out: texts(
            seq![line_break()] + printed_snippet(
                KEYWORDS@,
                rows_for(s.files, place.file),
                place.row,
                place.start,
                place.end,
                color,
            ),
        ),
        need: Need::More,
    }
}

/// The step behind the message of a diagnostic. A line that begins with
/// white space continues the message and is written as it is; any other
/// byte, and the end of the input, end the diagnostic.
pub open spec fn at_continuation(s: State, t: Tape, place: Place, color: Style) -> Outcome {
    let seen = t.after_peek();
    match seen.peek {
        None => if seen.at_end() {
            on_close(s, seen, place, color)
        } else {
            waiting(s, seen, Need::Input)
        },
        Some(b) => if !is_space_byte(b) {
            on_close(s, seen, place, color)
        } else if !seen.line_ready() {
            waiting(s, seen, Need::Input)
        } else {
            match seen.line() {
                Some(line) => Outcome {
                    state: s,
                    tape: seen.after_line(),
                    out: texts(seq![plain(line), line_break()]),
                    need: Need::More,
                },
                None => Outcome {
                    state: State { stage: Stage::Done, ..s },
                    tape: seen.after_line(),
                    out: Seq::empty(),
                    need: Need::Finished,
                },
            }
        },
    }
}

/// One step of the transcript.
pub open spec fn stepped(s: State, t: Tape) -> Outcome {
    match s.stage {
        Stage::Top => at_top(s, t),
        Stage::Prompt => at_prompt(s, t),
        Stage::Header(place) => at_header(s, t, place),
        Stage::Message(place) => at_message(s, t, place),
        Stage::Continuation(place, color) => at_continuation(s, t, place, color),
        Stage::Done => waiting(s, t, Need::Finished),
    }
}

/// How far a stage is from the next line.
pub open spec fn rank(stage: Stage) -> nat {
    match stage {
        Stage::Header(_) => 4,
        Stage::Message(_) => 3,
        Stage::Continuation(_, _) => 2,
        Stage::Prompt => 1,
        Stage::Top => 0,
        Stage::Done => 0,
    }
}

/// Whether a step from `s` and `t` to `next` and `left` got nearer to the
/// end: it took input, or it moved towards the next line.
pub open spec fn nearer(next: State, left: Tape, s: State, t: Tape) -> bool {
    left.unread().len() < t.unread().len() || (left.unread().len() == t.unread().len() && rank(
        next.stage,
    ) < rank(s.stage))
}

/// Step after step, until something is needed. Every step that needs
/// nothing gets nearer to the end of the input, so the steps come to an end.
pub open spec fn ran(s: State, t: Tape) -> Outcome
    decreases t.unread().len(), rank(s.stage),
{
    let first = stepped(s, t);
    if first.need == Need::More && nearer(first.state, first.tape, s, t) {
        let rest = ran(first.state, first.tape);
        Outcome { out: first.out + rest.out, ..rest }
    } else {
        first
    }
}

/// Whether a call that began with `s` and `t` and was to lead to `goal` did
/// so: the transcript and the reader are those of `goal`, what `goal`
/// writes was appended to what was there, and the status says what `goal`
/// needs.
pub open spec fn led_to(
    goal: Outcome,
    state: State,
    tape: Tape,
    before: Seq<Mark>,
    after: Seq<Mark>,
    need: Need,
) -> bool {
    &&& state == goal.state
    &&& tape == goal.tape
    &&& after == before + goal.out
    &&& need == goal.need
}

/// Appends the spans as text to write.
pub fn emit(out: &mut Vec<Chunk>, spans: Vec<Span>)
    ensures
        final(out).deep_view() == old(out).deep_view() + texts(spans.deep_view()),
{
    let mut i: usize = 0;
    assert(out.deep_view() =~= old(out).deep_view() + texts(spans.deep_view().take(0)));
    while i < spans.len()
        invariant
            i <= spans.len(),
            out.deep_view() == old(out).deep_view() + texts(spans.deep_view().take(i as int)),
        decreases spans.len() - i,
    {
        let ghost so_far = out.deep_view();
        let span = Span { text: spans[i].text.clone(), style: spans[i].style };
        assert(span@ == spans.deep_view()[i as int]);
        out.push(Chunk::Text(span));
        i = i + 1;
        proof {
            assert(out.deep_view() =~= so_far.push(Mark::Text(span@)));
            assert(texts(spans.deep_view().take(i as int)) =~= texts(
                spans.deep_view().take(i - 1),
            ).push(Mark::Text(span@)));
        }
    }
    assert(spans.deep_view().take(i as int) =~= spans.deep_view());
}

/// The colour codes, the shapes of lines, the source files and the place in
/// the input: all that writing the transcript takes.
pub struct Transcript {
    classifier: Classifier,
    files: FileCache,
    inside: bool,
    phase: Phase,
}

impl View for Transcript {
    type V = State;

    closed spec fn view(&self) -> State {
        State { files: self.files@, inside: self.inside, stage: self.phase@ }
    }
}

/// A copy of the location.
pub fn copy_of(location: &Location) -> (copy: Location)
    ensures
        copy@ == location@,
{
    Location {
        file: location.file.clone(),
        row: location.row,
        start: location.start,
        end: location.end,
    }
}

impl Transcript {
    /// A transcript at its beginning: outside any diagnostic, with no file
    /// known. `None` where the shapes of lines do not compile.
    pub fn new() -> (transcript: Option<Self>)
        ensures
            transcript is Some <==> shapes_compile(),
            transcript matches Some(t) ==> t@ == (State {
                files: Map::empty(),
                inside: false,
                stage: Stage::Top,
            }),
    {
        let classifier = Classifier::new()?;
        Some(Transcript { classifier, files: FileCache::new(), inside: false, phase: Phase::Top })
    }

    /// Whether the transcript is inside a diagnostic.
    pub fn inside(&self) -> (b: bool)
        ensures
            b == self@.inside,
    {
        self.inside
    }

    /// Whether the contents of the file are known.
    pub fn knows(&self, name: &str) -> (b: bool)
        ensures
            b == self@.files.contains_key(name@),
    {
        self.files.contains(name)
    }

    /// Takes the contents of a source file, or `None` for a file that could
    /// not be read. The first contents that are handed in for a name are
    /// kept, and whatever comes for that name later changes nothing.
    pub fn provide_file(&mut self, name: &str, content: Option<&[u8]>)
        ensures
            final(self)@ == (State {
                files: stored(old(self)@.files, name@, bytes_of(content)),
                ..old(self)@
            }),
    {
        self.files.store(name, content);
    }

    fn top(&mut self, lines: &mut Charpeek, out: &mut Vec<Chunk>) -> (status: Status)
        requires
            old(self)@.stage == Stage::Top,
        ensures
            led_to(
                at_top(old(self)@, old(lines)@),
                final(self)@,
                final(lines)@,
                old(out).deep_view(),
                final(out).deep_view(),
                status@,
            ),
    {
        match lines.peek_byte() {
            None => {
                assert(out.deep_view() =~= old(out).deep_view() + Seq::<Mark>::empty());
                if lines.at_end() {
                    Status::Finished
                } else {
                    Status::NeedInput
                }
            },
            Some(b) => {
                if b == PROMPT {
                    let mut scratch: Vec<u8> = Vec::new();
                    lines.flush_peek(&mut scratch);
                    self.phase = Phase::Prompt;
                    assert(out.deep_view() =~= old(out).deep_view() + Seq::<Mark>::empty());
                    Status::More
                } else if is_whitespace_byte(b) {
                    let mut scratch: Vec<u8> = Vec::new();
                    lines.flush_peek(&mut scratch);
                    out.push(Chunk::Raw(b));
                    assert(out.deep_view() =~= old(out).deep_view() + seq![Mark::Raw(b)]);
                    Status::More
                } else if !lines.line_ready() {
                    assert(out.deep_view() =~= old(out).deep_view() + Seq::<Mark>::empty());
                    Status::NeedInput
                } else {
                    match lines.next_line() {
                        Some(line) => self.line(line.as_str(), out, Ghost(lines@)),
                        None => {
                            self.phase = Phase::Done;
                            assert(out.deep_view() =~= old(out).deep_view() + Seq::<Mark>::empty());
                            Status::Finished
                        },
                    }
                }
            },
        }
    }

    fn line(&mut self, line: &str, out: &mut Vec<Chunk>, Ghost(tape): Ghost<Tape>) -> (status:
        Status)
        ensures
            led_to(
                on_line(old(self)@, tape, line@),
                final(self)@,
                tape,
                old(out).deep_view(),
                final(out).deep_view(),
                status@,
            ),
    {
        let kind = self.classifier.classify(line);
        match kind {
            Line::Header(location) => {
                self.inside = true;
                self.phase = Phase::Header(location);
                assert(out.deep_view() =~= old(out).deep_view() + Seq::<Mark>::empty());
            },
            _ => {
                let mut spans: Vec<Span> = Vec::new();
                if self.inside {
                    push_span(&mut spans, text_of_char('\n'), Style::Plain);
                }
                assert(spans.deep_view() =~= separator(self.inside));
                self.inside = false;
                print_formatted(&kind, line, &mut spans);
                push_span(&mut spans, text_of_char('\n'), Style::Plain);
                assert(spans.deep_view() =~= separator(old(self).inside) + formatted(kind@, line@)
                    + seq![line_break()]);
                emit(out, spans);
            },
        }
        Status::More
    }

    fn prompt(&mut self, lines: &mut Charpeek, out: &mut Vec<Chunk>) -> (status: Status)
        requires
            old(self)@.stage == Stage::Prompt,
        ensures
            led_to(
                at_prompt(old(self)@, old(lines)@),
                final(self)@,
                final(lines)@,
                old(out).deep_view(),
                final(out).deep_view(),
                status@,
            ),
    {
        let mut spans: Vec<Span> = Vec::new();
        match lines.peek_byte() {
            None => {
                if !lines.at_end() {
                    assert(out.deep_view() =~= old(out).deep_view() + Seq::<Mark>::empty());
                    return Status::NeedInput;
                }
                push_span(&mut spans, text_of_char('#'), Style::Plain);
                assert(spans.deep_view() =~= bare_prompt());
            },
            Some(b) => {
                if b == BLANK {
                    let mut scratch: Vec<u8> = Vec::new();
                    lines.flush_peek(&mut scratch);
                    push_span(&mut spans, text_of_char('\n'), Style::Plain);
                    push_span(&mut spans, "λ".to_owned(), Style::GreenBold);
                    push_span(&mut spans, text_of_char(' '), Style::Plain);
                    assert(spans.deep_view() =~= prompt_glyph());
                } else {
                    push_span(&mut spans, text_of_char('#'), Style::Plain);
                    assert(spans.deep_view() =~= bare_prompt());
                }
            },
        }
        self.phase = Phase::Top;
        emit(out, spans);
        Status::More
    }

    fn header(&mut self, location: Location, out: &mut Vec<Chunk>, Ghost(tape): Ghost<Tape>) -> (status:
        Status)
        requires
            old(self)@.stage == Stage::Header(location@),
        ensures
            led_to(
                at_header(old(self)@, tape, location@),
                final(self)@,
                tape,
                old(out).deep_view(),
                final(out).deep_view(),
                status@,
            ),
    {
        if !self.files.contains(location.file.as_str()) {
            assert(out.deep_view() =~= old(out).deep_view() + Seq::<Mark>::empty());
            return Status::NeedFile(location.file);
        }
        let mut spans: Vec<Span> = Vec::new();
        push_span(&mut spans, text_of_char('\n'), Style::Plain);
        push_fence(location.file.as_str(), location.row, &mut spans);
        push_span(&mut spans, text_of_char('\n'), Style::Plain);
        assert(spans.deep_view() =~= seq![
            line_break(),
            piece(fence(location@.file, location@.row), Style::Cyan),
            line_break(),
        ]);
        self.phase = Phase::Message(location);
        emit(out, spans);
        Status::More
    }

    fn message(&mut self, location: Location, lines: &mut Charpeek, out: &mut Vec<Chunk>) -> (status:
        Status)
        requires
            old(self)@.stage == Stage::Message(location@),
        ensures
            led_to(
                at_message(old(self)@, old(lines)@, location@),
                final(self)@,
                final(lines)@,
                old(out).deep_view(),
                final(out).deep_view(),
                status@,
            ),
    {
        let line = if lines.line_ready() {
            match lines.next_line() {
                Some(line) => line,
                None => String::new(),
            }
        } else if lines.at_end() {
            String::new()
        } else {
            assert(out.deep_view() =~= old(out).deep_view() + Seq::<Mark>::empty());
            return Status::NeedInput;
        };
        let message = self.classifier.strip(line.as_str());
        let mut spans: Vec<Span> = Vec::new();
        let color = self.classifier.print_message(message.as_str(), &mut spans);
        assert(spans.deep_view() =~= shown_message(message@));
        self.phase = Phase::Continuation(location, color);
        emit(out, spans);
        Status::More
    }

    fn close(&mut self, location: Location, color: Style, out: &mut Vec<Chunk>, Ghost(tape): Ghost<
        Tape,
    >) -> (status: Status)
        requires
            old(self)@.stage == Stage::Continuation(location@, color),
        ensures
            led_to(
                on_close(old(self)@, tape, location@, color),
                final(self)@,
                tape,
                old(out).deep_view(),
                final(out).deep_view(),
                status@,
            ),
    {
        let mut spans: Vec<Span> = Vec::new();
        push_span(&mut spans, text_of_char('\n'), Style::Plain);
        let nothing: Vec<String> = Vec::new();
        assert(nothing.deep_view() =~= Seq::<Seq<char>>::empty());
        let keys = self.classifier.keywords();
        match self.files.rows(location.file.as_str()) {
            Some(rows) => {
                print_snippet(
                    keys,
                    rows,
                    location.row,
                    location.start,
                    location.end,
                    color,
                    &mut spans,
                );
            },
            None => {
                print_snippet(
                    keys,
                    &nothing,
                    location.row,
                    location.start,
                    location.end,
                    color,
                    &mut spans,
                );
            },
        }
        assert(spans.deep_view() =~= seq![line_break()] + printed_snippet(
            KEYWORDS@,
            rows_for(self@.files, location@.file),
            location@.row,
            location@.start,
            location@.end,
            color,
        ));
        self.phase = Phase::Top;
        emit(out, spans);
        Status::More
    }

    fn continuation(
        &mut self,
        location: Location,
        color: Style,
        lines: &mut Charpeek,
        out: &mut Vec<Chunk>,
    ) -> (status: Status)
        requires
            old(self)@.stage == Stage::Continuation(location@, color),
        ensures
            led_to(
                at_continuation(old(self)@, old(lines)@, location@, color),
                final(self)@,
                final(lines)@,
                old(out).deep_view(),
                final(out).deep_view(),
                status@,
            ),
    {
        match lines.peek_byte() {
            None => {
                if lines.at_end() {
                    self.close(location, color, out, Ghost(lines@))
                } else {
                    assert(out.deep_view() =~= old(out).deep_view() + Seq::<Mark>::empty());
                    Status::NeedInput
                }
            },
            Some(b) => {
                if !is_whitespace_byte(b) {
                    self.close(location, color, out, Ghost(lines@))
                } else if !lines.line_ready() {
                    assert(out.deep_view() =~= old(out).deep_view() + Seq::<Mark>::empty());
                    Status::NeedInput
                } else {
                    match lines.next_line() {
                        Some(line) => {
                            let mut spans: Vec<Span> = Vec::new();
                            push_span(&mut spans, line, Style::Plain);
                            push_span(&mut spans, text_of_char('\n'), Style::Plain);
                            assert(spans.deep_view() =~= seq![plain(line@), line_break()]);
                            emit(out, spans);
                            Status::More
                        },
                        None => {
                            self.phase = Phase::Done;
                            assert(out.deep_view() =~= old(out).deep_view() + Seq::<Mark>::empty());
                            Status::Finished
                        },
                    }
                }
            },
        }
    }

    /// Takes one step: reads at most one line from `lines`, appends what is
    /// to be written to `out`, and says what is needed next. A step that
    /// needs something has changed nothing but the lookahead of `lines`,
    /// and can be taken again once what it needs is there.
    pub fn step(&mut self, lines: &mut Charpeek, out: &mut Vec<Chunk>) -> (status: Status)
        ensures
            led_to(
                stepped(old(self)@, old(lines)@),
                final(self)@,
                final(lines)@,
                old(out).deep_view(),
                final(out).deep_view(),
                status@,
            ),
    {
        match &self.phase {
            Phase::Top => self.top(lines, out),
            Phase::Prompt => self.prompt(lines, out),
            Phase::Header(location) => {
                let location = copy_of(location);
                self.header(location, out, Ghost(lines@))
            },
            Phase::Message(location) => {
                let location = copy_of(location);
                self.message(location, lines, out)
            },
            Phase::Continuation(location, color) => {
                let location = copy_of(location);
                let color = *color;
                self.continuation(location, color, lines, out)
            },
            Phase::Done => {
                assert(out.deep_view() =~= old(out).deep_view() + Seq::<Mark>::empty());
                Status::Finished
            },
        }
    }

    /// Takes steps until something is needed: goes through all the input
    /// that `lines` holds, appends what is to be written to `out`, and says
    /// what is needed to go on.
    pub fn do_it(&mut self, lines: &mut Charpeek, out: &mut Vec<Chunk>) -> (status: Status)
        ensures
            led_to(
                ran(old(self)@, old(lines)@),
                final(self)@,
                final(lines)@,
                old(out).deep_view(),
                final(out).deep_view(),
                status@,
            ),
            status@ != Need::More,
    {
        let ghost goal = ran(self@, lines@);
        let ghost mut written: Seq<Mark> = Seq::empty();
        assert(out.deep_view() =~= old(out).deep_view() + written);
        let mut status = Status::More;
        while status.is_more()
            invariant
                out.deep_view() == old(out).deep_view() + written,
                status@ == Need::More ==> ({
                    let rest = ran(self@, lines@);
                    goal == (Outcome { out: written + rest.out, ..rest })
                }),
                status@ != Need::More ==> goal == (Outcome {
                    state: self@,
                    tape: lines@,
                    out: written,
                    need: status@,
                }),
            decreases
                    (if status@ == Need::More {
                        1int
                    } else {
                        0int
                    }),
                    lines@.unread().len(),
                    rank(self@.stage),
        {
            let ghost s = self@;
            let ghost t = lines@;
            let ghost so_far = written;
            status = self.step(lines, out);
            proof {
                let first = stepped(s, t);
                lemma_step_gets_nearer(s, t);
                written = so_far + first.out;
                assert(out.deep_view() =~= old(out).deep_view() + written);
                if first.need == Need::More {
                    let rest = ran(first.state, first.tape);
                    assert(so_far + (first.out + rest.out) =~= written + rest.out);
                }
            }
        }
        status
    }
}

/// A step that needs nothing has taken input or has moved towards the next
/// line, so that steps cannot follow one another without end.
pub proof fn lemma_step_gets_nearer(s: State, t: Tape)
    ensures
        stepped(s, t).need == Need::More ==> nearer(stepped(s, t).state, stepped(s, t).tape, s, t),
        stepped(s, t).tape.unread().len() <= t.unread().len(),
{
    let seen = t.after_peek();
    assert(seen.unread() =~= t.unread());
    assert(seen.after_flush().unread() =~= seen.rest);
    if seen.line_ready() {
        lemma_line_len_bound(seen.unread());
    }
    if t.line_ready() {
        lemma_line_len_bound(t.unread());
    }
}

/// A file is asked for only while it is not known, and asking changes
/// nothing. Once its contents were handed in, be it that it could not be
/// read, the same step asks for it no more: each file is read once at most.
pub proof fn lemma_file_is_asked_once(s: State, t: Tape, name: Seq<char>, content: Option<Seq<u8>>)
    requires
        stepped(s, t).need == Need::File(name),
    ensures
        !s.files.contains_key(name),
        stepped(s, t).state == s,
        stepped(s, t).tape == t,
        stepped(s, t).out == Seq::<Mark>::empty(),
        stepped(State { files: stored(s.files, name, content), ..s }, t).need == Need::More,
{
}

/// Steps change nothing of what is known of the files, and a run of steps
/// that ends by asking for a file asks for one that is not known.
pub proof fn lemma_files_stay(s: State, t: Tape)
    ensures
        stepped(s, t).state.files == s.files,
        ran(s, t).state.files == s.files,
        forall|name: Seq<char>|
            ran(s, t).need == Need::File(name) ==> !s.files.contains_key(name),
    decreases t.unread().len(), rank(s.stage),
{
    let first = stepped(s, t);
    if first.need == Need::More && nearer(first.state, first.tape, s, t) {
        lemma_files_stay(first.state, first.tape);
    }
}

/// A line of none of the known shapes passes through: it is written as it
/// came, behind the blank line that closes a diagnostic where one was open,
/// and with its line break.
pub proof fn lemma_unknown_line_passes_through(s: State, t: Tape, line: Seq<char>)
    requires
        fits_no_shape(line),
    ensures
        on_line(s, t, line).out == texts(separator(s.inside) + seq![plain(line), line_break()]),
        !on_line(s, t, line).state.inside,
        on_line(s, t, line).state.stage == s.stage,
{
    assert(separator(s.inside) + formatted(classified(line), line) + seq![line_break()]
        =~= separator(s.inside) + seq![plain(line), line_break()]);
}

} // verus!
