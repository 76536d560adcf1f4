//! Telling the lines of a compiler's output apart, and writing out those
//! that carry no source location.
//!
//! A line is held against a fixed list of shapes, in order, and takes the
//! first that fits. The shapes are regular expressions; what they match is
//! the `regex` crate's to say, and this module is proved over the names of
//! its results.

use vstd::prelude::*;
use vstd::string::StringExecFns;
use crate::pattern::{capture_groups, compiles, found, replaced, Pattern};
use crate::snippet::line_break;
use crate::style::{
    joined, lemma_plain_is_unchanged, lemma_visible_one, paints, piece, plain, push_span, Piece,
    Span, Style,
};
use crate::text::{
    chars_of, decimal, number, parse_number, push_decimal, push_repeated, repeated, text_of,
    text_of_char,
};

verus! {

/// A line that names a file, a row and a range of columns.
pub const LOCATION: &'static str = "^File \"(.*)\", line (\\d+), characters (\\d+)-(\\d+):$";

/// A line in which a build tool repeats the command it runs.
pub const COMMAND: &'static str = "ocaml.* -I .* -o .*|^ocamldep.*\\.mli? >|^ocamlbuild -package";

/// A line that gives a value its type.
pub const BINDING: &'static str = "^((?:let |val )?)(.+?) : (.+?)( =.*$|$)";

/// A line that declares a type.
pub const DECLARATION: &'static str = "^type (.+?) =(.*)$";

/// The word that a message begins with.
pub const WORD: &'static str = "^\\w+";

/// The keywords that are emphasised in source rows.
pub const KEYWORDS: &'static str =
    "\\b(let|in|match|with|for|do|done|if|then|else|begin|end|rec|when|and|or|val)\\b";

/// A colour code that another tool has put into a line.
pub const ESCAPE: &'static str = "\\x1B\\[.+?m";

/// Where a diagnostic points: a file, a row counted from 1, and the columns
/// from `start` up to, and without, `end`, counted from 0 on from the start
/// of that row.
#[derive(Clone, Debug, PartialEq, Eq)]
pub struct Location {
    pub file: String,
    pub row: usize,
    pub start: usize,
    pub end: usize,
}

/// A location as plain data.
pub struct Place {
    pub file: Seq<char>,
    pub row: nat,
    pub start: nat,
    pub end: nat,
}

impl View for Location {
    type V = Place;

    open spec fn view(&self) -> Place {
        Place {
            file: self.file@,
            row: self.row as nat,
            start: self.start as nat,
            end: self.end as nat,
        }
    }
}

impl DeepView for Location {
    type V = Place;

    open spec fn deep_view(&self) -> Place {
        self@
    }
}

/// What a line is taken for.
#[derive(Clone, Debug, PartialEq, Eq)]
pub enum Line {
    /// The head of a diagnostic.
    Header(Location),
    /// A command that a build tool repeats.
    Command,
    /// A value with its type: the keyword in front of it, with the blank
    /// behind it, if there is one; the name; the type; and what follows.
    Binding { keyword: String, name: String, ty: String, rest: String },
    /// The declaration of a type: its name, and what follows the equals
    /// sign.
    Declaration { name: String, rest: String },
    /// A hint.
    Hint,
    /// Anything else.
    Plain,
}

/// What a line is taken for, as plain data.
pub enum Kind {
    Header(Place),
    Command,
    Binding { keyword: Seq<char>, name: Seq<char>, ty: Seq<char>, rest: Seq<char> },
    Declaration { name: Seq<char>, rest: Seq<char> },
    Hint,
    Plain,
}

impl View for Line {
    type V = Kind;

    open spec fn view(&self) -> Kind {
        match self {
            Line::Header(location) => Kind::Header(location@),
            Line::Command => Kind::Command,
            Line::Binding { keyword, name, ty, rest } => Kind::Binding {
                keyword: keyword@,
                name: name@,
                ty: ty@,
                rest: rest@,
            },
            Line::Declaration { name, rest } => Kind::Declaration { name: name@, rest: rest@ },
            Line::Hint => Kind::Hint,
            Line::Plain => Kind::Plain,
        }
    }
}

/// Whether `groups` holds exactly the whole match and `n` groups behind it,
/// all of which took part in the match.
pub open spec fn has_groups(groups: Seq<Option<Seq<char>>>, n: nat) -> bool {
    groups.len() == n + 1 && forall|i: int| 0 <= i <= n ==> (#[trigger] groups[i]) is Some
}

/// The text of group `i`.
pub open spec fn group(groups: Seq<Option<Seq<char>>>, i: int) -> Seq<char> {
    groups[i].unwrap()
}

/// The location that the groups of a location line give: the file as it is
/// written, and the three numbers, each of which is to be a decimal number
/// that a `usize` holds.
pub open spec fn place_of(groups: Seq<Option<Seq<char>>>) -> Option<Place> {
    if has_groups(groups, 4) && number(group(groups, 2)) is Some && number(group(groups, 3))
        is Some && number(group(groups, 4)) is Some {
        Some(
            Place {
                file: group(groups, 1),
                row: number(group(groups, 2)).unwrap() as nat,
                start: number(group(groups, 3)).unwrap() as nat,
                end: number(group(groups, 4)).unwrap() as nat,
            },
        )
    } else {
        None
    }
}

/// What a line with the groups of a value and its type is taken for.
pub open spec fn binding_of(groups: Seq<Option<Seq<char>>>) -> Kind {
    if has_groups(groups, 4) {
        Kind::Binding {
            keyword: group(groups, 1),
            name: group(groups, 2),
            ty: group(groups, 3),
            rest: group(groups, 4),
        }
    } else {
        Kind::Plain
    }
}

/// What a line with the groups of a type declaration is taken for.
pub open spec fn declaration_of(groups: Seq<Option<Seq<char>>>) -> Kind {
    if has_groups(groups, 2) {
        Kind::Declaration { name: group(groups, 1), rest: group(groups, 2) }
    } else {
        Kind::Plain
    }
}

/// The mark that a hint begins with.
pub open spec fn hint_mark() -> Seq<char> {
    seq!['H', 'i', 'n', 't', ':']
}

/// Whether `line` begins with the mark of a hint.
pub open spec fn is_hint(line: Seq<char>) -> bool {
    line.len() >= 5 && line.take(5) == hint_mark()
}

/// `line` without the colour codes in it.
pub open spec fn stripped(line: Seq<char>) -> Seq<char> {
    replaced(ESCAPE@, line, Seq::empty())
}

/// What `line` is taken for. The shapes are tried in this order: a
/// location, looked for in the line without its colour codes; a command; a
/// value with its type; a type declaration; a hint. A line of none of these
/// shapes is plain, and so is a line in the shape of a location with a
/// number that cannot be read.
pub open spec fn classified(line: Seq<char>) -> Kind {
    if capture_groups(LOCATION@, stripped(line)) is Some {
        match place_of(capture_groups(LOCATION@, stripped(line)).unwrap()) {
            Some(place) => Kind::Header(place),
            None => Kind::Plain,
        }
    } else if found(COMMAND@, line) is Some {
        Kind::Command
    } else if capture_groups(BINDING@, line) is Some {
        binding_of(capture_groups(BINDING@, line).unwrap())
    } else if capture_groups(DECLARATION@, line) is Some {
        declaration_of(capture_groups(DECLARATION@, line).unwrap())
    } else if is_hint(line) {
        Kind::Hint
    } else {
        Kind::Plain
    }
}

/// Whether `line` has none of the known shapes.
pub open spec fn fits_no_shape(line: Seq<char>) -> bool {
    &&& capture_groups(LOCATION@, stripped(line)) is None
    &&& found(COMMAND@, line) is None
    &&& capture_groups(BINDING@, line) is None
    &&& capture_groups(DECLARATION@, line) is None
    &&& !is_hint(line)
}

/// What stands behind the word in front of a hint: the colon, and the hint.
pub open spec fn after_hint(line: Seq<char>) -> Seq<char> {
    if line.len() >= 4 {
        line.skip(4)
    } else {
        Seq::empty()
    }
}

/// The rule that is drawn above a hint.
pub open spec fn hint_rule() -> Seq<char> {
    repeated('-', 80)
}

/// How a line that is no location is written, without the line break at
/// its end.
pub open spec fn formatted(kind: Kind, line: Seq<char>) -> Seq<Piece> {
    match kind {
        Kind::Header(_) => Seq::empty(),
        Kind::Command => seq![piece(line, Style::Dimmed)],
        Kind::Binding { keyword, name, ty, rest } => seq![
            piece(keyword, Style::Bold),
            plain(name),
            plain(" : "@),
            piece(ty, Style::Cyan),
            plain(rest),
        ],
        Kind::Declaration { name, rest } => seq![
            piece("type"@, Style::Bold),
            plain(" "@),
            piece(name, Style::Cyan),
            plain(" ="@),
            plain(rest),
        ],
        Kind::Hint => seq![
            line_break(),
            piece(hint_rule(), Style::Cyan),
            line_break(),
            piece("Hint"@, Style::Green),
            plain(after_hint(line)),
        ],
        Kind::Plain => seq![plain(line)],
    }
}

/// The rule above a diagnostic, which names the file and the row.
pub open spec fn fence(file: Seq<char>, row: nat) -> Seq<char> {
    let title = file + seq![':'] + decimal(row);
    "-- "@ + title + seq![' '] + repeated(
        '-',
        if title.len() <= 76 {
            (76 - title.len()) as nat
        } else {
            0
        },
    )
}

/// The colour of a diagnostic, which the first word of its message gives.
pub open spec fn severity(label: Seq<char>) -> Style {
    if label == "Warning"@ {
        Style::Yellow
    } else if label == "Error"@ {
        Style::RedBold
    } else {
        Style::Bold
    }
}

/// The label that a match of the word pattern gives a message: what stands
/// up to the end of the match. Without a match the label is empty.
pub open spec fn label_in(hit: Option<(Seq<char>, Seq<char>, Seq<char>)>) -> Seq<char> {
    match hit {
        Some((before, word, after)) => before + word,
        None => Seq::empty(),
    }
}

/// What stands behind the label of `message`.
pub open spec fn rest_in(hit: Option<(Seq<char>, Seq<char>, Seq<char>)>, message: Seq<char>) -> Seq<
    char,
> {
    match hit {
        Some((before, word, after)) => after,
        None => message,
    }
}

/// The word that `message` begins with.
pub open spec fn label_of(message: Seq<char>) -> Seq<char> {
    label_in(found(WORD@, message))
}

/// What stands behind the word that `message` begins with.
pub open spec fn after_label(message: Seq<char>) -> Seq<char> {
    rest_in(found(WORD@, message), message)
}

/// How the message of a diagnostic is written: the word it begins with in
/// the colour of the diagnostic, and the rest as it is.
pub open spec fn shown_message(message: Seq<char>) -> Seq<Piece> {
    seq![
        piece(label_of(message), severity(label_of(message))),
        plain(after_label(message)),
        line_break(),
    ]
}

/// The location that the capture groups of a location line give.
pub fn location_from(groups: &Vec<Option<String>>) -> (location: Option<Location>)
    ensures
        location.deep_view() == place_of(groups.deep_view()),
{
    if groups.len() != 5 {
        return None;
    }
    let ghost g = groups.deep_view();
    match (&groups[1], &groups[2], &groups[3], &groups[4]) {
        (Some(file), Some(row), Some(start), Some(end)) => {
            if groups[0].is_none() {
                assert(g[0] is None);
                return None;
            }
            assert(g[0] is Some && g[1] is Some && g[2] is Some && g[3] is Some && g[4] is Some);
            assert(has_groups(g, 4));
            assert(group(g, 1) == file@ && group(g, 2) == row@ && group(g, 3) == start@ && group(
                g,
                4,
            ) == end@);
            let row = parse_number(&chars_of(row.as_str()));
            let start = parse_number(&chars_of(start.as_str()));
            let end = parse_number(&chars_of(end.as_str()));
            match (row, start, end) {
                (Some(row), Some(start), Some(end)) => Some(
                    Location { file: file.clone(), row, start, end },
                ),
                _ => None,
            }
        },
        _ => {
            assert(g[1] is None || g[2] is None || g[3] is None || g[4] is None);
            None
        },
    }
}

/// What a line with these capture groups of a value and its type is taken
/// for.
pub fn binding_from(groups: &Vec<Option<String>>) -> (line: Line)
    ensures
        line@ == binding_of(groups.deep_view()),
{
    if groups.len() != 5 {
        return Line::Plain;
    }
    let ghost g = groups.deep_view();
    match (&groups[0], &groups[1], &groups[2], &groups[3], &groups[4]) {
        (Some(_), Some(keyword), Some(name), Some(ty), Some(rest)) => {
            assert(g[0] is Some && g[1] is Some && g[2] is Some && g[3] is Some && g[4] is Some);
            assert(has_groups(g, 4));
            assert(group(g, 1) == keyword@ && group(g, 2) == name@ && group(g, 3) == ty@ && group(
                g,
                4,
            ) == rest@);
            Line::Binding {
                keyword: keyword.clone(),
                name: name.clone(),
                ty: ty.clone(),
                rest: rest.clone(),
            }
        },
        _ => {
            assert(g[0] is None || g[1] is None || g[2] is None || g[3] is None || g[4] is None);
            Line::Plain
        },
    }
}

/// What a line with these capture groups of a type declaration is taken
/// for.
pub fn declaration_from(groups: &Vec<Option<String>>) -> (line: Line)
    ensures
        line@ == declaration_of(groups.deep_view()),
{
    if groups.len() != 3 {
        return Line::Plain;
    }
    let ghost g = groups.deep_view();
    match (&groups[0], &groups[1], &groups[2]) {
        (Some(_), Some(name), Some(rest)) => {
            assert(g[0] is Some && g[1] is Some && g[2] is Some);
            assert(has_groups(g, 2));
            assert(group(g, 1) == name@ && group(g, 2) == rest@);
            Line::Declaration { name: name.clone(), rest: rest.clone() }
        },
        _ => {
            assert(g[0] is None || g[1] is None || g[2] is None);
            Line::Plain
        },
    }
}

/// Whether the line begins with the mark of a hint.
pub fn begins_hint(line: &Vec<char>) -> (b: bool)
    ensures
        b == is_hint(line@),
{
    if line.len() < 5 {
        return false;
    }
    let b = line[0] == 'H' && line[1] == 'i' && line[2] == 'n' && line[3] == 't' && line[4] == ':';
    proof {
        if b {
            assert(line@.take(5) =~= hint_mark());
        } else {
            assert(line@.take(5)[0] == line[0]);
            assert(line@.take(5)[1] == line[1]);
            assert(line@.take(5)[2] == line[2]);
            assert(line@.take(5)[3] == line[3]);
            assert(line@.take(5)[4] == line[4]);
        }
    }
    b
}

/// The colour that the first word of a message gives.
pub fn severity_from(label: &str) -> (style: Style)
    ensures
        style == severity(label@),
{
    let label = label.to_owned();
    if label == "Warning".to_owned() {
        Style::Yellow
    } else if label == "Error".to_owned() {
        Style::RedBold
    } else {
        Style::Bold
    }
}

/// Whether the `regex` crate accepts every shape.
pub open spec fn shapes_compile() -> bool {
    &&& compiles(LOCATION@)
    &&& compiles(COMMAND@)
    &&& compiles(BINDING@)
    &&& compiles(DECLARATION@)
    &&& compiles(WORD@)
    &&& compiles(KEYWORDS@)
    &&& compiles(ESCAPE@)
}

/// The compiled shapes.
pub struct Classifier {
    location: Pattern,
    command: Pattern,
    binding: Pattern,
    declaration: Pattern,
    word: Pattern,
    keywords: Pattern,
    escape: Pattern,
}

impl Classifier {
    /// Each pattern was compiled from the shape it stands for.
    #[verifier::type_invariant]
    spec fn compiled(self) -> bool {
        &&& self.location@ == LOCATION@
        &&& self.command@ == COMMAND@
        &&& self.binding@ == BINDING@
        &&& self.declaration@ == DECLARATION@
        &&& self.word@ == WORD@
        &&& self.keywords@ == KEYWORDS@
        &&& self.escape@ == ESCAPE@
    }

    /// Compiles the shapes. `None` where the `regex` crate refuses one of
    /// them.
    pub fn new() -> (classifier: Option<Self>)
        ensures
            classifier is Some <==> shapes_compile(),
    {
        let location = Pattern::compile(LOCATION)?;
        let command = Pattern::compile(COMMAND)?;
        let binding = Pattern::compile(BINDING)?;
        let declaration = Pattern::compile(DECLARATION)?;
        let word = Pattern::compile(WORD)?;
        let keywords = Pattern::compile(KEYWORDS)?;
        let escape = Pattern::compile(ESCAPE)?;
        Some(Classifier { location, command, binding, declaration, word, keywords, escape })
    }

    /// The pattern of the keywords.
    pub fn keywords(&self) -> (keys: &Pattern)
        ensures
            keys@ == KEYWORDS@,
    {
        proof {
            use_type_invariant(self);
        }
        &self.keywords
    }

    /// `line` without the colour codes in it.
    pub fn strip(&self, line: &str) -> (out: String)
        ensures
            out@ == stripped(line@),
    {
        proof {
            use_type_invariant(self);
        }
        let nothing = String::new();
        self.escape.replace_all(line, nothing.as_str())
    }

    /// What `line` is taken for.
    pub fn classify(&self, line: &str) -> (kind: Line)
        ensures
            kind@ == classified(line@),
    {
        proof {
            use_type_invariant(self);
        }
        let bare = self.strip(line);
        match self.location.captures(bare.as_str()) {
            Some(groups) => {
                return match location_from(&groups) {
                    Some(location) => Line::Header(location),
                    None => Line::Plain,
                };
            },
            None => {},
        }
        if self.command.is_match(line) {
            return Line::Command;
        }
        match self.binding.captures(line) {
            Some(groups) => {
                return binding_from(&groups);
            },
            None => {},
        }
        match self.declaration.captures(line) {
            Some(groups) => {
                return declaration_from(&groups);
            },
            None => {},
        }
        if begins_hint(&chars_of(line)) {
            Line::Hint
        } else {
            Line::Plain
        }
    }

    /// Appends the message of a diagnostic, and returns the colour of the
    /// diagnostic.
    pub fn print_message(&self, message: &str, out: &mut Vec<Span>) -> (style: Style)
        ensures
            style == severity(label_of(message@)),
            final(out).deep_view() == old(out).deep_view() + shown_message(message@),
    {
        proof {
            use_type_invariant(self);
        }
        push_message(self.word.find(message), message, out)
    }
}

/// Appends `message` with the label that a match of the word pattern gives
/// it, and returns the colour that goes with the label.
pub fn push_message(hit: Option<(String, String, String)>, message: &str, out: &mut Vec<Span>) -> (style:
    Style)
    ensures
        style == severity(label_in(hit.deep_view())),
        final(out).deep_view() == old(out).deep_view() + seq![
            piece(label_in(hit.deep_view()), style),
            plain(rest_in(hit.deep_view(), message@)),
            line_break(),
        ],
{
    let (label, rest) = match hit {
        Some((before, word, after)) => {
            let mut label = before;
            label.append(word.as_str());
            (label, after)
        },
        None => (String::new(), message.to_owned()),
    };
    let style = severity_from(label.as_str());
    let ghost pieces = seq![piece(label@, style), plain(rest@), line_break()];
    push_span(out, label, style);
    push_span(out, rest, Style::Plain);
    push_span(out, text_of_char('\n'), Style::Plain);
    assert(out.deep_view() =~= old(out).deep_view() + pieces);
    style
}

/// Appends a line that is no location as it is written, without the line
/// break at its end.
pub fn print_formatted(kind: &Line, line: &str, out: &mut Vec<Span>)
    ensures
        final(out).deep_view() == old(out).deep_view() + formatted(kind@, line@),
{
    match kind {
        Line::Header(_) => {
            assert(out.deep_view() =~= old(out).deep_view() + formatted(kind@, line@));
        },
        Line::Command => {
            push_span(out, line.to_owned(), Style::Dimmed);
            assert(out.deep_view() =~= old(out).deep_view() + formatted(kind@, line@));
        },
        Line::Binding { keyword, name, ty, rest } => {
            push_span(out, keyword.clone(), Style::Bold);
            push_span(out, name.clone(), Style::Plain);
            push_span(out, " : ".to_owned(), Style::Plain);
            push_span(out, ty.clone(), Style::Cyan);
            push_span(out, rest.clone(), Style::Plain);
            assert(out.deep_view() =~= old(out).deep_view() + formatted(kind@, line@));
        },
        Line::Declaration { name, rest } => {
            push_span(out, "type".to_owned(), Style::Bold);
            push_span(out, " ".to_owned(), Style::Plain);
            push_span(out, name.clone(), Style::Cyan);
            push_span(out, " =".to_owned(), Style::Plain);
            push_span(out, rest.clone(), Style::Plain);
            assert(out.deep_view() =~= old(out).deep_view() + formatted(kind@, line@));
        },
        Line::Hint => {
            let chars = chars_of(line);
            let mut rule: Vec<char> = Vec::new();
            push_repeated(&mut rule, '-', 80);
            assert(rule@ =~= hint_rule());
            let mut rest: Vec<char> = Vec::new();
            let mut i: usize = 4;
            while i < chars.len()
                invariant
                    4 <= i,
                    i <= chars.len() || chars.len() < 4,
                    chars.len() >= 4 ==> rest@ == chars@.subrange(4, i as int),
                    chars.len() < 4 ==> rest@ == Seq::<char>::empty(),
                decreases chars.len() - i,
            {
                rest.push(chars[i]);
                i = i + 1;
                assert(rest@ =~= chars@.subrange(4, i as int));
            }
            assert(rest@ =~= after_hint(line@));
            push_span(out, text_of_char('\n'), Style::Plain);
            push_span(out, text_of(&rule), Style::Cyan);
            push_span(out, text_of_char('\n'), Style::Plain);
            push_span(out, "Hint".to_owned(), Style::Green);
            push_span(out, text_of(&rest), Style::Plain);
            assert(out.deep_view() =~= old(out).deep_view() + formatted(kind@, line@));
        },
        Line::Plain => {
            push_span(out, line.to_owned(), Style::Plain);
            assert(out.deep_view() =~= old(out).deep_view() + formatted(kind@, line@));
        },
    }
}

/// Appends the rule above a diagnostic.
pub fn push_fence(file: &str, row: usize, out: &mut Vec<Span>)
    ensures
        final(out).deep_view() == old(out).deep_view().push(
            piece(fence(file@, row as nat), Style::Cyan),
        ),
{
    let mut title = chars_of(file);
    title.push(':');
    push_decimal(&mut title, row as u128);
    assert(title@ =~= file@ + seq![':'] + decimal(row as nat));
    let dashes: usize = if title.len() <= 76 {
        76 - title.len()
    } else {
        0
    };
    let mut rule = chars_of("-- ");
    let mut i: usize = 0;
    while i < title.len()
        invariant
            i <= title.len(),
            rule@ == "-- "@ + title@.take(i as int),
        decreases title.len() - i,
    {
        rule.push(title[i]);
        i = i + 1;
        assert(rule@ =~= "-- "@ + title@.take(i as int));
    }
    assert(title@.take(i as int) =~= title@);
    rule.push(' ');
    push_repeated(&mut rule, '-', dashes);
    assert(rule@ =~= fence(file@, row as nat));
    push_span(out, text_of(&rule), Style::Cyan);
}

/// A line that has none of the known shapes is written as it is: it is one
/// plain piece, and however a terminal paints it, what is written is the
/// line.
pub proof fn lemma_unknown_line_is_unchanged(line: Seq<char>)
    requires
        fits_no_shape(line),
    ensures
        classified(line) == Kind::Plain,
        formatted(classified(line), line) == seq![plain(line)],
        forall|parts: Seq<Seq<char>>| #[trigger]
            paints(formatted(classified(line), line), parts) ==> joined(parts) == line,
{
    let pieces = formatted(classified(line), line);
    assert forall|parts: Seq<Seq<char>>| #[trigger] paints(pieces, parts) implies joined(parts)
        == line by {
        lemma_plain_is_unchanged(pieces, parts);
        lemma_visible_one(plain(line));
    }
}

} // verus!
