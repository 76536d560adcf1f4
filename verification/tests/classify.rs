use camlfilter::classify::{
    begins_hint, binding_from, declaration_from, location_from, print_formatted, push_fence,
    push_message, severity_from, Classifier, Line, Location,
};
use camlfilter::style::{Span, Style};

fn span(text: &str, style: Style) -> Span {
    Span { text: text.to_string(), style }
}

fn plain(text: &str) -> Span {
    span(text, Style::Plain)
}

fn location(file: &str, row: usize, start: usize, end: usize) -> Line {
    Line::Header(Location { file: file.to_string(), row, start, end })
}

fn binding(keyword: &str, name: &str, ty: &str, rest: &str) -> Line {
    Line::Binding {
        keyword: keyword.to_string(),
        name: name.to_string(),
        ty: ty.to_string(),
        rest: rest.to_string(),
    }
}

fn declaration(name: &str, rest: &str) -> Line {
    Line::Declaration { name: name.to_string(), rest: rest.to_string() }
}

fn groups(texts: &[Option<&str>]) -> Vec<Option<String>> {
    texts.iter().map(|t| t.map(|s| s.to_string())).collect()
}

fn written(line: &str) -> Vec<Span> {
    let c = Classifier::new().unwrap();
    let kind = c.classify(line);
    let mut out = Vec::new();
    print_formatted(&kind, line, &mut out);
    out
}

#[test]
fn shapes_compile() {
    assert!(Classifier::new().is_some());
}

#[test]
fn header_is_recognised() {
    let c = Classifier::new().unwrap();
    assert_eq!(c.classify("File \"a.ml\", line 2, characters 4-7:"), location("a.ml", 2, 4, 7));
    assert_eq!(
        c.classify("File \"src/my file.ml\", line 120, characters 0-15:"),
        location("src/my file.ml", 120, 0, 15)
    );
    assert_eq!(c.classify("File \"\", line 0, characters 0-0:"), location("", 0, 0, 0));
}

#[test]
fn header_is_recognised_through_colour_codes() {
    let c = Classifier::new().unwrap();
    assert_eq!(
        c.classify("\u{1b}[1mFile \"a.ml\", line 2, characters 4-7\u{1b}[0m:"),
        location("a.ml", 2, 4, 7)
    );
    assert_eq!(c.strip("\u{1b}[1;31mError\u{1b}[0m: no"), "Error: no");
    assert_eq!(c.strip("no codes"), "no codes");
}

#[test]
fn header_must_be_the_whole_line() {
    let c = Classifier::new().unwrap();
    assert_eq!(c.classify(" File \"a.ml\", line 2, characters 4-7:"), Line::Plain);
    assert_eq!(c.classify("File \"a.ml\", line 2, characters 4-7: x"), Line::Plain);
    assert_eq!(c.classify("File \"a.ml\", line 2, characters 4-7"), Line::Plain);
    assert_eq!(c.classify("File \"a.ml\", line 2:"), Line::Plain);
    assert_eq!(c.classify("File \"a.ml\", line -2, characters 4-7:"), Line::Plain);
}

#[test]
fn header_with_a_number_that_cannot_be_read_is_plain() {
    let c = Classifier::new().unwrap();
    assert_eq!(
        c.classify("File \"a.ml\", line 340282366920938463463374607431768211456, characters 4-7:"),
        Line::Plain
    );
    assert_eq!(
        c.classify("File \"a.ml\", line 2, characters 4-340282366920938463463374607431768211456:"),
        Line::Plain
    );
    assert_eq!(c.classify("File \"a.ml\", line \u{663}, characters 4-7:"), Line::Plain);
}

#[test]
fn commands_are_recognised() {
    let c = Classifier::new().unwrap();
    for line in [
        "ocamlfind ocamlopt -I src -o main.native src/main.cmx",
        "+ ocamlfind ocamlc -c -I src -o src/a.cmo src/a.ml",
        "ocamldep -modules src/a.ml > src/a.ml.depends",
        "ocamldep -modules src/a.mli > src/a.mli.depends",
        "ocamlbuild -package str main.native",
    ] {
        assert_eq!(c.classify(line), Line::Command, "{}", line);
    }
    assert_eq!(c.classify(" ocamlbuild -package str"), Line::Plain);
    assert_eq!(c.classify("ocamlopt -o main"), Line::Plain);
}

#[test]
fn command_comes_before_binding() {
    let c = Classifier::new().unwrap();
    assert_eq!(c.classify("ocamlc -I a : b -o c"), Line::Command);
}

#[test]
fn binding_is_recognised() {
    let c = Classifier::new().unwrap();
    assert_eq!(c.classify("let x : int = 5"), binding("let ", "x", "int", " = 5"));
    assert_eq!(c.classify("val f : int -> int"), binding("val ", "f", "int -> int", ""));
    assert_eq!(c.classify("- : int = 3"), binding("", "-", "int", " = 3"));
    assert_eq!(c.classify("x : 'a list"), binding("", "x", "'a list", ""));
    assert_eq!(c.classify("val x : t = <abstr>"), binding("val ", "x", "t", " = <abstr>"));
}

#[test]
fn binding_takes_the_first_colon_and_the_first_equals_sign() {
    let c = Classifier::new().unwrap();
    assert_eq!(
        c.classify("val f : a : b = c = d"),
        binding("val ", "f", "a : b", " = c = d")
    );
    assert_eq!(c.classify("val f : a =b"), binding("val ", "f", "a", " =b"));
}

#[test]
fn binding_comes_before_declaration_and_hint() {
    let c = Classifier::new().unwrap();
    assert_eq!(c.classify("type t = { x : int }"), binding("", "type t = { x", "int }", ""));
    assert_eq!(c.classify("Hint: try x : int"), binding("", "Hint: try x", "int", ""));
}

#[test]
fn declaration_is_recognised() {
    let c = Classifier::new().unwrap();
    assert_eq!(c.classify("type t = A | B"), declaration("t", " A | B"));
    assert_eq!(c.classify("type 'a t = 'a list"), declaration("'a t", " 'a list"));
    assert_eq!(c.classify("type t ="), declaration("t", ""));
    assert_eq!(c.classify("type a = b = c"), declaration("a", " b = c"));
    assert_eq!(c.classify("type t"), Line::Plain);
    assert_eq!(c.classify(" type t = A"), Line::Plain);
}

#[test]
fn hint_is_recognised() {
    let c = Classifier::new().unwrap();
    assert_eq!(c.classify("Hint: Did you mean foo?"), Line::Hint);
    assert_eq!(c.classify("Hint:"), Line::Hint);
    assert_eq!(c.classify("Hint"), Line::Plain);
    assert_eq!(c.classify(" Hint: x"), Line::Plain);
    assert_eq!(c.classify("hint: x"), Line::Plain);
}

#[test]
fn anything_else_is_plain() {
    let c = Classifier::new().unwrap();
    for line in ["", "Hello world", "Error: Unbound value foo", "  ^^^", "a:b", "type", "let x = 1"] {
        assert_eq!(c.classify(line), Line::Plain, "{}", line);
    }
}

#[test]
fn location_needs_four_groups_and_three_numbers() {
    let g = groups(&[Some("whole"), Some("a.ml"), Some("2"), Some("4"), Some("7")]);
    assert_eq!(
        location_from(&g),
        Some(Location { file: "a.ml".to_string(), row: 2, start: 4, end: 7 })
    );
    assert_eq!(location_from(&groups(&[Some("w"), Some("a"), Some("2"), Some("4")])), None);
    assert_eq!(
        location_from(&groups(&[Some("w"), Some("a"), Some("2"), Some("4"), Some("7"), Some("8")])),
        None
    );
    assert_eq!(location_from(&groups(&[Some("w"), Some("a"), None, Some("4"), Some("7")])), None);
    assert_eq!(location_from(&groups(&[None, Some("a"), Some("2"), Some("4"), Some("7")])), None);
    assert_eq!(
        location_from(&groups(&[Some("w"), Some("a"), Some("x"), Some("4"), Some("7")])),
        None
    );
    assert_eq!(
        location_from(&groups(&[Some("w"), Some("a"), Some("2"), Some(""), Some("7")])),
        None
    );
    assert_eq!(location_from(&groups(&[])), None);
}

#[test]
fn binding_needs_four_groups() {
    assert_eq!(
        binding_from(&groups(&[Some("w"), Some("let "), Some("x"), Some("int"), Some("")])),
        binding("let ", "x", "int", "")
    );
    assert_eq!(
        binding_from(&groups(&[Some("w"), None, Some("x"), Some("int"), Some("")])),
        Line::Plain
    );
    assert_eq!(binding_from(&groups(&[Some("w"), Some("x"), Some("int")])), Line::Plain);
}

#[test]
fn declaration_needs_two_groups() {
    assert_eq!(
        declaration_from(&groups(&[Some("w"), Some("t"), Some(" A")])),
        declaration("t", " A")
    );
    assert_eq!(declaration_from(&groups(&[Some("w"), Some("t"), None])), Line::Plain);
    assert_eq!(declaration_from(&groups(&[Some("w"), Some("t")])), Line::Plain);
}

#[test]
fn hint_mark_is_five_characters() {
    let chars = |s: &str| s.chars().collect::<Vec<char>>();
    assert!(begins_hint(&chars("Hint: x")));
    assert!(begins_hint(&chars("Hint:")));
    assert!(!begins_hint(&chars("Hint")));
    assert!(!begins_hint(&chars("Hint;")));
    assert!(!begins_hint(&chars("")));
}

#[test]
fn severity_is_given_by_the_first_word() {
    assert_eq!(severity_from("Warning"), Style::Yellow);
    assert_eq!(severity_from("Error"), Style::RedBold);
    assert_eq!(severity_from("Alert"), Style::Bold);
    assert_eq!(severity_from("error"), Style::Bold);
    assert_eq!(severity_from(""), Style::Bold);
}

#[test]
fn unknown_line_is_written_unchanged() {
    for line in ["", "Hello world", "  some \u{1b}[31mred\u{1b}[0m text ", "a:b"] {
        assert_eq!(written(line), vec![plain(line)]);
    }
}

#[test]
fn binding_is_written_with_keyword_and_type_styled() {
    assert_eq!(
        written("let x : int = 5"),
        vec![
            span("let ", Style::Bold),
            plain("x"),
            plain(" : "),
            span("int", Style::Cyan),
            plain(" = 5"),
        ]
    );
    assert_eq!(
        written("- : unit = ()"),
        vec![
            span("", Style::Bold),
            plain("-"),
            plain(" : "),
            span("unit", Style::Cyan),
            plain(" = ()"),
        ]
    );
}

#[test]
fn declaration_is_written_with_keyword_and_name_styled() {
    assert_eq!(
        written("type t = A | B"),
        vec![
            span("type", Style::Bold),
            plain(" "),
            span("t", Style::Cyan),
            plain(" ="),
            plain(" A | B"),
        ]
    );
}

#[test]
fn command_is_written_dimmed() {
    assert_eq!(
        written("ocamlbuild -package str main.native"),
        vec![span("ocamlbuild -package str main.native", Style::Dimmed)]
    );
}

#[test]
fn hint_is_written_below_a_rule() {
    let rule = "-".repeat(80);
    assert_eq!(
        written("Hint: Did you mean foo?"),
        vec![
            plain("\n"),
            span(&rule, Style::Cyan),
            plain("\n"),
            span("Hint", Style::Green),
            plain(": Did you mean foo?"),
        ]
    );
}

#[test]
fn header_is_not_written_by_the_line_formatter() {
    assert_eq!(written("File \"a.ml\", line 2, characters 4-7:"), Vec::<Span>::new());
}

#[test]
fn written_lines_keep_their_text() {
    for line in ["let x : int = 5", "type t = A | B", "val f : 'a -> 'a", "plain", "ocamlbuild -package x"] {
        let text: String = written(line).iter().map(|s| s.text.as_str()).collect();
        assert_eq!(text, line);
    }
}

#[test]
fn message_begins_with_its_label() {
    let c = Classifier::new().unwrap();
    let mut out = Vec::new();
    assert_eq!(c.print_message("Error: Unbound value foo", &mut out), Style::RedBold);
    assert_eq!(
        out,
        vec![span("Error", Style::RedBold), plain(": Unbound value foo"), plain("\n")]
    );
    let mut out = Vec::new();
    assert_eq!(c.print_message("Warning 8: not exhaustive", &mut out), Style::Yellow);
    assert_eq!(
        out,
        vec![span("Warning", Style::Yellow), plain(" 8: not exhaustive"), plain("\n")]
    );
    let mut out = Vec::new();
    assert_eq!(c.print_message("Alert deprecated: old", &mut out), Style::Bold);
    assert_eq!(out, vec![span("Alert", Style::Bold), plain(" deprecated: old"), plain("\n")]);
}

#[test]
fn message_without_a_word_at_its_start_has_an_empty_label() {
    let c = Classifier::new().unwrap();
    let mut out = vec![plain("x")];
    assert_eq!(c.print_message(": odd", &mut out), Style::Bold);
    assert_eq!(out, vec![plain("x"), span("", Style::Bold), plain(": odd"), plain("\n")]);
    let mut out = Vec::new();
    assert_eq!(c.print_message("", &mut out), Style::Bold);
    assert_eq!(out, vec![span("", Style::Bold), plain(""), plain("\n")]);
}

#[test]
fn fence_names_file_and_row_and_is_eighty_wide() {
    let mut out = Vec::new();
    push_fence("a.ml", 2, &mut out);
    let expected = format!("-- a.ml:2 {}", "-".repeat(70));
    assert_eq!(expected.len(), 80);
    assert_eq!(out, vec![span(&expected, Style::Cyan)]);
}

#[test]
fn fence_of_a_long_name_has_no_dashes_behind_it() {
    let name = "d/".repeat(40);
    let mut out = Vec::new();
    push_fence(&name, 12345, &mut out);
    assert_eq!(out, vec![span(&format!("-- {}:12345 ", name), Style::Cyan)]);
    let name = "d/".repeat(37);
    let mut out = Vec::new();
    push_fence(&name, 1, &mut out);
    assert_eq!(out, vec![span(&format!("-- {}:1 ", name), Style::Cyan)]);
    let name = "x".repeat(73);
    let mut out = Vec::new();
    push_fence(&name, 1, &mut out);
    assert_eq!(out, vec![span(&format!("-- {}:1 -", name), Style::Cyan)]);
}

#[test]
fn label_is_what_stands_up_to_the_end_of_the_match() {
    let hit = |b: &str, w: &str, a: &str| Some((b.to_string(), w.to_string(), a.to_string()));
    let mut out = Vec::new();
    assert_eq!(push_message(hit("", "Error", ": no"), "Error: no", &mut out), Style::RedBold);
    assert_eq!(out, vec![span("Error", Style::RedBold), plain(": no"), plain("\n")]);
    let mut out = Vec::new();
    assert_eq!(push_message(hit("War", "ning", " 8"), "Warning 8", &mut out), Style::Yellow);
    assert_eq!(out, vec![span("Warning", Style::Yellow), plain(" 8"), plain("\n")]);
    let mut out = vec![plain("x")];
    assert_eq!(push_message(None, "Error: no", &mut out), Style::Bold);
    assert_eq!(out, vec![plain("x"), span("", Style::Bold), plain("Error: no"), plain("\n")]);
}
