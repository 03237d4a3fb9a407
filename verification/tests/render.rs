use gptui::highlight::cells_of_pieces;
use gptui::highlight::first_found;
use gptui::highlight::ink_of_background;
use gptui::highlight::SyntaxSource;
use gptui::highlight::lines_hold;
use gptui::highlight::Highlighter;
use gptui::llm::LlmModel;
use gptui::message::Message;
use gptui::message::Role;
use gptui::render::holds_symbols;
use gptui::render::segment;
use gptui::session::Thread;
use gptui::relay::decode_header;
use gptui::relay::encode;
use gptui::relay::DaemonMsg;
use gptui::error::Error;
use gptui::message::CodeBlock;
use gptui::render::cells;
use gptui::render::coalesce_graphemes;
use gptui::render::show_block;
use gptui::render::wrap;
use gptui::render::Cell;
use gptui::render::DisplayLine;
use gptui::render::Ink;
use gptui::render::Span;
use gptui::render::Style;

fn red() -> Style {
    Style {
        fg: Ink::Rgb(255, 0, 0),
        ..Style::plain()
    }
}

fn symbols(text: &str) -> Vec<String> {
    segment(text).into_iter().next().unwrap_or_default()
}

fn text_of(row: &Vec<Cell>) -> String {
    row.iter().map(|c| c.symbol.as_str()).collect()
}

#[test]
fn lines_are_cut_to_the_width() {
    let pad = Cell {
        symbol: ".".to_string(),
        style: red(),
    };
    let line = cells(&symbols("abcdefg"), Style::plain());
    let rows: Vec<String> = wrap(&line, 3, &pad).iter().map(text_of).collect();
    assert_eq!(rows, vec!["abc", "def", "g.."]);
    let exact: Vec<String> = wrap(&line, 7, &pad).iter().map(text_of).collect();
    assert_eq!(exact, vec!["abcdefg"]);
    let wide = wrap(&line, 9, &pad);
    assert_eq!(text_of(&wide[0]), "abcdefg..");
    assert_eq!(wide[0][8].style, red());
    assert_eq!(wide[0][0].style, Style::plain());
    assert!(wrap(&line, 0, &pad).is_empty());
    assert!(wrap(&vec![], 5, &pad).is_empty());
    for width in 1..10 {
        assert!(wrap(&line, width, &pad).iter().all(|r| r.len() == width));
    }
}

#[test]
fn neighbours_of_one_style_become_one_span() {
    let mut row = cells(&symbols("ab"), Style::plain());
    row.extend(cells(&symbols("cd"), red()));
    row.extend(cells(&symbols("e"), Style::plain()));
    assert_eq!(
        coalesce_graphemes(&row),
        vec![
            Span {
                text: "ab".to_string(),
                style: Style::plain()
            },
            Span {
                text: "cd".to_string(),
                style: red()
            },
            Span {
                text: "e".to_string(),
                style: Style::plain()
            }
        ]
    );
    assert!(coalesce_graphemes(&vec![]).is_empty());
}

#[test]
fn block_is_shown_with_its_number() {
    let rows = show_block("ab\n\nabcde", 12, 4);
    let shown: Vec<String> = rows
        .iter()
        .map(|r| match r {
            DisplayLine::Code(spans) => spans.iter().map(|s| s.text.as_str()).collect(),
            DisplayLine::Annotation(n) => format!("({n})"),
            other => panic!("unexpected {other:?}"),
        })
        .collect();
    assert_eq!(shown, vec!["ab  ", "abcd", "e   ", "(12)"]);
    let block = CodeBlock::new(None, "x".to_string());
    assert_eq!(block.highlighted_text(3, 2), show_block("x", 3, 2));
    assert_eq!(
        block.highlighted_text(3, 0),
        vec![DisplayLine::Annotation(3)]
    );
}

#[test]
fn frames_carry_their_length() {
    assert_eq!(encode(&b"hello".to_vec()), b"5\nhello".to_vec());
    assert_eq!(encode(&vec![]), b"0\n".to_vec());
    let long = vec![7u8; 1234];
    let framed = encode(&long);
    assert_eq!(&framed[..5], b"1234\n");
    assert_eq!(&framed[5..], &long[..]);
    assert_eq!(decode_header(&b"1234\n".to_vec()), Ok(1234));
    assert_eq!(decode_header(&b"0".to_vec()), Ok(0));
    for bad in ["", "\n", "12a\n", "-1\n", " 1\n", "1\r\n", "99999999999999999999999\n"] {
        assert!(matches!(
            decode_header(&bad.as_bytes().to_vec()),
            Err(Error::CommunicationError(_))
        ));
    }
    for n in [0usize, 9, 10, 99, 100, 65535] {
        let framed = encode(&vec![0u8; n]);
        let end = framed.iter().position(|b| *b == b'\n').unwrap();
        assert_eq!(decode_header(&framed[..=end].to_vec()), Ok(n));
    }
}

#[test]
fn failures_are_shown_and_sent() {
    assert_eq!(
        Error::DbRetrievalError("x".to_string()).message(),
        "Error attempting to handle database value: x"
    );
    assert_eq!(
        Error::JsonParseError("x".to_string()).message(),
        "Error when processing json: x"
    );
    assert_eq!(Error::ChannelError("x".to_string()).message(), "Channel error: x");
    assert_eq!(
        Error::CommunicationError("x".to_string()).message(),
        "Error when communicating with daemon: x"
    );
    assert_eq!(Error::CliError("x".to_string()).message(), "x");
    assert_eq!(Error::Other("x".to_string()).message(), "x");
    assert_eq!(
        DaemonMsg::from_error(&Error::ChannelError("closed".to_string())),
        DaemonMsg::Error("Channel error: closed".to_string())
    );
}

fn row_texts(rows: &[DisplayLine]) -> Vec<String> {
    rows.iter()
        .map(|r| match r {
            DisplayLine::Code(spans) => spans.iter().map(|s| s.text.as_str()).collect(),
            DisplayLine::Annotation(n) => format!("({n})"),
            other => panic!("unexpected {other:?}"),
        })
        .collect()
}

#[test]
fn code_is_coloured_by_its_syntax() {
    let highlighter = Highlighter::new();
    assert_eq!(highlighter.background(), Ink::Rgb(45, 45, 45));
    let code = "fn main() {\n    let answer = 42; // why\n}";
    let styled = highlighter.styled_lines(Some("rust"), code);
    assert_eq!(styled.background, Ink::Rgb(45, 45, 45));
    let lines: Vec<String> = styled.lines.iter().map(text_of).collect();
    assert_eq!(lines, vec!["fn main() {", "    let answer = 42; // why", "}"]);
    let mut colours: Vec<Ink> = Vec::new();
    for cell in styled.lines.iter().flatten() {
        if !colours.contains(&cell.style.fg) {
            colours.push(cell.style.fg);
        }
    }
    assert!(colours.len() > 2, "{colours:?}");
    assert!(!colours.contains(&Ink::Plain));
    assert!(styled
        .lines
        .iter()
        .flatten()
        .all(|c| c.style.bg == Ink::Rgb(45, 45, 45)));

    // without a language the first line may give the syntax away
    let script = highlighter.styled_lines(None, "#!/bin/bash\necho hi");
    let plain = highlighter.styled_lines(None, "nothing to see\necho hi");
    let unknown = highlighter.styled_lines(Some("no such language"), "nothing to see\necho hi");
    assert_ne!(script.lines[1], plain.lines[1]);
    assert_eq!(unknown, plain);
    assert_eq!(highlighter.styled_lines(Some("py"), "").lines.len(), 0);
}

#[test]
fn coloured_block_shows_the_same_text() {
    let highlighter = Highlighter::new();
    let m = Message::new(
        Role::Assistant,
        "```python\ndef f(x):\n    return x + 1  # more\n```",
        0,
    );
    let mut thread = Thread::new(vec![m], LlmModel::GPT4, 1);
    let plain = thread.code_blocks()[0].highlighted_text(3, 10);
    assert!(!thread.code_blocks()[0].is_styled());
    thread.highlight(&highlighter);
    assert!(thread.code_blocks()[0].is_styled());
    assert!(thread.messages()[0].is_styled());
    let coloured = thread.code_blocks()[0].highlighted_text(3, 10);
    assert_eq!(row_texts(&coloured), row_texts(&plain));
    assert_eq!(
        row_texts(&coloured),
        vec!["def f(x): ", "    return", " x + 1  # ", "more      ", "(3)"]
    );
    assert_ne!(coloured, plain);
    match (&coloured[0], &plain[0]) {
        (DisplayLine::Code(a), DisplayLine::Code(b)) => {
            assert!(a.len() > 1);
            assert_eq!(b.len(), 1);
            assert_eq!(b[0].style, Style::plain());
        }
        other => panic!("unexpected {other:?}"),
    }
    match coloured[3].clone() {
        DisplayLine::Code(spans) => {
            assert_eq!(spans.last().unwrap().style.bg, Ink::Rgb(45, 45, 45));
            assert_eq!(spans.last().unwrap().style.fg, Ink::Plain);
        }
        other => panic!("unexpected {other:?}"),
    }

    // colours that do not fit the text are passed over
    let mut block = thread.code_blocks()[0].clone();
    block.content = "other text".to_string();
    assert_eq!(
        row_texts(&block.highlighted_text(1, 12)),
        vec!["other text  ", "(1)"]
    );
    thread.update("```js\nlet a;\n```");
    thread.highlight(&highlighter);
    thread.commit_message().unwrap();
    assert!(thread.messages().iter().all(|m| m.is_styled()));
}

#[test]
fn cells_hold_their_text() {
    let pieces = vec![
        ((1, 2, 3), (4, 5, 6), "ab".to_string()),
        ((7, 8, 9), (4, 5, 6), "".to_string()),
        ((7, 8, 9), (4, 5, 6), "é".to_string()),
    ];
    let cells_of_line = cells_of_pieces(&pieces);
    assert_eq!(text_of(&cells_of_line), "abé");
    assert_eq!(cells_of_line[1].style.fg, Ink::Rgb(1, 2, 3));
    assert_eq!(cells_of_line[2].style.fg, Ink::Rgb(7, 8, 9));
    assert_eq!(cells_of_line[2].style.bg, Ink::Rgb(4, 5, 6));
    let text = symbols("abé");
    assert_eq!(text, vec!["a", "b", "é"]);
    assert!(holds_symbols(&cells_of_line, &text));
    assert!(!holds_symbols(&cells_of_line, &symbols("ab")));
    assert!(!holds_symbols(&cells_of_line, &symbols("abe")));
    assert!(!holds_symbols(&cells_of_line, &symbols("abéd")));
    let double = vec![Cell {
        symbol: "ab".to_string(),
        style: Style::plain(),
    }];
    assert!(!holds_symbols(&double, &symbols("ab")));
    assert!(lines_hold(&vec![cells_of_line.clone()], &vec![text.clone()]));
    assert!(!lines_hold(&vec![cells_of_line.clone()], &vec![]));
    assert!(!lines_hold(&vec![cells_of_line], &vec![text.clone(), text]));
}

#[test]
fn a_symbol_of_several_characters_takes_one_cell() {
    // an e with a combining accent, and a family joined by zero-width
    // joiners: each is one symbol, however many characters it has
    let accent = "e\u{301}";
    let family = "\u{1F468}\u{200D}\u{1F469}\u{200D}\u{1F467}";
    let text = format!("{accent}x{family}y");
    assert_eq!(symbols(&text), vec![accent, "x", family, "y"]);
    assert_eq!(
        segment(&format!("ab\n{accent}\r\n\nc")),
        vec![
            vec!["a".to_string(), "b".to_string()],
            vec![accent.to_string()],
            vec![],
            vec!["c".to_string()]
        ]
    );
    let rows = show_block(&text, 1, 3);
    let texts: Vec<String> = rows
        .iter()
        .map(|l| match l {
            DisplayLine::Code(spans) => spans.iter().map(|s| s.text.as_str()).collect(),
            DisplayLine::Annotation(n) => format!("({n})"),
            other => panic!("unexpected {other:?}"),
        })
        .collect();
    assert_eq!(
        texts,
        vec![format!("{accent}x{family}"), "y  ".to_string(), "(1)".to_string()]
    );
    // a piece is cut into its own symbols
    let cells_of_line = cells_of_pieces(&vec![
        ((1, 2, 3), (4, 5, 6), format!("a{accent}")),
        ((7, 8, 9), (4, 5, 6), family.to_string()),
    ]);
    assert_eq!(cells_of_line.len(), 3);
    assert_eq!(cells_of_line[1].symbol, accent);
    assert_eq!(cells_of_line[2].symbol, family);
    assert!(holds_symbols(&cells_of_line, &symbols(&format!("a{accent}{family}"))));
}

#[test]
fn syntax_is_given_away_by_language_then_first_line_then_nothing() {
    let highlighter = Highlighter::new();
    let cases = [
        (Some("rust"), Some("fn main() {}"), Some(SyntaxSource::Language)),
        (Some("py"), Some("#!/bin/bash"), Some(SyntaxSource::Language)),
        (Some("no such language"), Some("#!/bin/bash"), Some(SyntaxSource::FirstLine)),
        (None, Some("#!/usr/bin/env python"), Some(SyntaxSource::FirstLine)),
        (Some("no such language"), Some("just text"), Some(SyntaxSource::PlainText)),
        (None, Some("just text"), Some(SyntaxSource::PlainText)),
        (Some("no such language"), None, Some(SyntaxSource::PlainText)),
        (None, None, Some(SyntaxSource::PlainText)),
    ];
    for (language, first_line, source) in cases {
        assert_eq!(
            highlighter.syntax_source(language, first_line),
            source,
            "{language:?} {first_line:?}"
        );
    }
}

#[test]
fn first_syntax_that_was_found_is_taken() {
    let set = syntect::parsing::SyntaxSet::load_defaults_nonewlines();
    let rust = set.find_syntax_by_token("rs").unwrap();
    let bash = set.find_syntax_by_first_line("#!/bin/bash").unwrap();
    let plain = set.find_syntax_plain_text();
    let name = |found: Option<(SyntaxSource, &syntect::parsing::SyntaxReference)>| {
        found.map(|(source, syntax)| (source, syntax.name.clone()))
    };
    assert_eq!(
        name(first_found(Some(rust), Some(bash), Some(plain))),
        Some((SyntaxSource::Language, "Rust".to_string()))
    );
    assert_eq!(
        name(first_found(None, Some(bash), Some(plain))),
        Some((SyntaxSource::FirstLine, bash.name.clone()))
    );
    assert_eq!(
        name(first_found(None, None, Some(plain))),
        Some((SyntaxSource::PlainText, "Plain Text".to_string()))
    );
    assert_eq!(
        name(first_found(Some(plain), None, Some(rust))),
        Some((SyntaxSource::Language, "Plain Text".to_string()))
    );
    assert_eq!(name(first_found(None, None, None)), None);
}

#[test]
fn background_of_the_theme() {
    assert_eq!(ink_of_background(None), Ink::Plain);
    assert_eq!(ink_of_background(Some(None)), Ink::Plain);
    assert_eq!(ink_of_background(Some(Some((1, 2, 3)))), Ink::Rgb(1, 2, 3));
    assert_eq!(ink_of_background(Some(Some((0, 0, 0)))), Ink::Rgb(0, 0, 0));
    let stock = syntect::highlighting::ThemeSet::load_defaults();
    for name in [
        "base16-ocean.dark",
        "base16-eighties.dark",
        "base16-mocha.dark",
        "base16-ocean.light",
        "InspiredGitHub",
        "Solarized (dark)",
        "Solarized (light)",
    ] {
        assert!(stock.themes.contains_key(name), "{name}");
    }
    let expected = stock.themes["base16-eighties.dark"]
        .settings
        .background
        .map(|c| Ink::Rgb(c.r, c.g, c.b))
        .unwrap();
    assert_eq!(Highlighter::new().background(), expected);
    assert_eq!(
        Highlighter::new().styled_lines(None, "x").background,
        expected
    );
}
