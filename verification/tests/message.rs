use gptui::error::Error;
use gptui::llm::LlmModel;
use gptui::llm::PromptSetting;
use gptui::message::blocks_from;
use gptui::message::mark_gaps;
use gptui::message::CodeBlock;
use gptui::message::Message;
use gptui::message::Role;
use gptui::message::BLOCK_MARKER;
use gptui::render::DisplayLine;

#[test]
fn code_block_extraction() {
    let m = Message::new(
        Role::Assistant,
        "# T\n\n```python\nprint(1)\n```\nmid\n```js\nx=1\n```",
        0,
    );
    let blocks = m.code_blocks();
    assert_eq!(blocks.len(), 2);
    assert_eq!(blocks[0].language.as_deref(), Some("python"));
    assert_eq!(blocks[0].content, "print(1)");
    assert_eq!(blocks[1].language.as_deref(), Some("js"));
    assert_eq!(blocks[1].content, "x=1");
    assert_eq!(
        m.non_code_content(),
        format!("# T\n\n{BLOCK_MARKER}\nmid\n{BLOCK_MARKER}")
    );
    assert_eq!(m.non_code_content().matches(BLOCK_MARKER).count(), 2);
}

#[test]
fn blocks_without_language_and_text_without_blocks() {
    let m = Message::new(Role::User, "a\n```\nline 1\nline 2\n```\nb", 0);
    assert_eq!(m.code_blocks().len(), 1);
    assert_eq!(m.code_blocks()[0].language, None);
    assert_eq!(m.code_blocks()[0].content, "line 1\nline 2");
    assert_eq!(m.non_code_content(), format!("a\n{BLOCK_MARKER}\nb"));

    let plain = Message::new(Role::User, "no code here ``` at all", 0);
    assert_eq!(plain.code_blocks().len(), 0);
    assert_eq!(plain.non_code_content(), "no code here ``` at all");

    let open = Message::new(Role::User, "```rust\nfn main() {}", 0);
    assert_eq!(open.code_blocks().len(), 0);
}

#[test]
fn derivation_depends_on_the_text_alone() {
    let text = "x\n```c\nint a;\n```\ny";
    let mut a = Message::new(Role::Assistant, text, 1);
    let b = Message::new(Role::User, text, 99);
    a.update_blocks();
    a.update_blocks();
    assert_eq!(a.non_code_content(), b.non_code_content());
    assert_eq!(a.code_blocks(), b.code_blocks());
    assert_eq!(
        a.non_code_content().matches(BLOCK_MARKER).count(),
        a.code_blocks().len()
    );
}

#[test]
fn update_appends_and_derives_anew() {
    let mut m = Message::new(Role::Assistant, "see ```py\nx", 5);
    assert_eq!(m.code_blocks().len(), 0);
    m.update(" = 1\n```");
    assert_eq!(m.content(), "see ```py\nx = 1\n```");
    assert_eq!(m.code_blocks().len(), 1);
    assert_eq!(m.code_blocks()[0].content, "x = 1");
    assert_eq!(m.non_code_content(), format!("see {BLOCK_MARKER}"));
    assert_eq!(m.timestamp_millis(), 5);
    assert!(m.is_assistant());
}

#[test]
fn gaps_and_groups_become_text_and_blocks() {
    assert_eq!(
        mark_gaps(&vec!["a".to_string(), "b".to_string(), "".to_string()]),
        format!("a{BLOCK_MARKER}b{BLOCK_MARKER}")
    );
    assert_eq!(mark_gaps(&vec!["only".to_string()]), "only");
    let blocks = blocks_from(vec![
        (
            "```rs\nx\n```".to_string(),
            Some("rs".to_string()),
            Some("x".to_string()),
        ),
        ("```\n\n```".to_string(), None, None),
    ]);
    assert_eq!(
        blocks,
        vec![
            CodeBlock::new(Some("rs".to_string()), "x".to_string()),
            CodeBlock::new(None, String::new())
        ]
    );
}

#[test]
fn block_as_it_stood() {
    assert_eq!(
        CodeBlock::new(Some("py".to_string()), "a\nb".to_string()).as_raw(),
        "```py\na\nb\n```"
    );
    assert_eq!(CodeBlock::new(None, "a".to_string()).as_raw(), "```\na\n```");
}

#[test]
fn roles_and_numbers() {
    assert_eq!(Role::System.to_num(), 1);
    assert_eq!(Role::User.to_num(), 2);
    assert_eq!(Role::Assistant.to_num(), 3);
    for role in [Role::System, Role::User, Role::Assistant] {
        assert_eq!(Role::from_num(role.to_num()), Ok(role));
    }
    for bad in [0, 4, usize::MAX] {
        assert_eq!(
            Role::from_num(bad),
            Err(Error::Other("Role value must be 1, 2, or 3".to_string()))
        );
    }
    assert_eq!(Role::default(), Role::User);
    let header = Role::Assistant.tui_display_header();
    assert_eq!((header.text.as_str(), header.color.as_str()), ("Assistant", "blue"));
    assert!(header.underlined && !header.bold);
    assert!(Role::System.tui_display_header().bold);
    assert_eq!(Role::User.tui_display_header().color, "green");
    assert_eq!(Role::System.wire_name(), "system");
    assert_eq!(Role::User.wire_name(), "user");
    assert_eq!(Role::Assistant.wire_name(), "assistant");
}

#[test]
fn messages_of_the_moment() {
    let u = Message::new_user("hello");
    assert!(u.is_user() && !u.is_system() && !u.is_assistant());
    assert_eq!(u.content(), "hello");
    assert_eq!(u.token_count(), None);
    assert!(u.timestamp_millis() > 1_600_000_000_000);
    let a = Message::new_asst("hi");
    assert!(a.is_assistant());
    assert!(a.timestamp_millis() >= u.timestamp_millis());
    let d = Message::new_from_db(Role::System, "p".to_string(), 1234, Some(9));
    assert!(d.is_system());
    assert_eq!(d.timestamp_millis(), 1234);
    assert_eq!(d.token_count(), Some(9));
    let mut late = Message::new(Role::User, "x", 10);
    late.not_before(5);
    assert_eq!(late.timestamp_millis(), 10);
    late.not_before(50);
    assert_eq!(late.timestamp_millis(), 50);
}

#[test]
fn models_and_personas() {
    assert_eq!(LlmModel::GPT4.max_context(), 8192);
    assert_eq!(LlmModel::GPT35Turbo.max_context(), 4096);
    assert_eq!(LlmModel::from_label("gpt-4"), Some(LlmModel::GPT4));
    assert_eq!(LlmModel::from_label("gpt-3.5-turbo"), Some(LlmModel::GPT35Turbo));
    assert_eq!(LlmModel::from_label("GPT-4"), None);
    assert_eq!(LlmModel::from_label(""), None);
    for m in [LlmModel::GPT4, LlmModel::GPT35Turbo] {
        assert_eq!(LlmModel::from_label(&m.label()), Some(m));
    }
    assert_eq!(LlmModel::default(), LlmModel::GPT4);
    let p = PromptSetting::default();
    assert_eq!(p.label, "Assistant");
    assert_eq!(p.prompt, "You are a helpful assistant");
    assert_eq!(p.model, LlmModel::GPT4);
    assert_eq!(p.color(), None);
    let q = PromptSetting {
        color: Some("red".to_string()),
        ..p.clone()
    };
    assert_eq!(q.color(), Some("red"));
    assert_eq!(q.duplicate(), q);
}

#[test]
fn message_text_is_shown_with_numbered_blocks() {
    let m = Message::new(
        Role::Assistant,
        "intro\n```py\nab\ncdefg\n```\nmid\n```js\nx\n```\nend",
        0,
    );
    let mut index = 4usize;
    let rows = m.formatted_content(&mut index, 3);
    assert_eq!(index, 6);
    let shown: Vec<String> = rows
        .iter()
        .map(|r| match r {
            DisplayLine::Plain(s) => format!("P:{s}"),
            DisplayLine::Code(spans) => format!(
                "C:{}",
                spans.iter().map(|s| s.text.as_str()).collect::<String>()
            ),
            DisplayLine::Annotation(n) => format!("({n})"),
            DisplayLine::Header(_) => "H".to_string(),
            DisplayLine::Blank => "B".to_string(),
        })
        .collect();
    assert_eq!(
        shown,
        vec!["P:intro", "C:ab ", "C:cde", "C:fg ", "(4)", "P:mid", "C:x  ", "(5)", "P:end"]
    );
}

#[test]
fn marker_that_shares_its_line_shows_no_block() {
    let m = Message::new(Role::Assistant, "see ```py\nx\n``` there", 0);
    assert_eq!(m.code_blocks().len(), 1);
    let mut index = 1usize;
    let rows = m.formatted_content(&mut index, 10);
    assert_eq!(index, 1);
    assert_eq!(
        rows,
        vec![DisplayLine::Plain(format!("see {BLOCK_MARKER} there"))]
    );
}

#[test]
fn fences_on_own_lines_show_all_blocks() {
    for (text, shown) in [
        ("plain", true),
        ("```a\nx\n```", true),
        ("intro\n```a\nx\n```\nmid\n```b\ny\n```\nend", true),
        ("```a\nx\n```\n```b\ny\n```", true),
        ("see ```a\nx\n``` there", false),
        ("```a\nx\n``````b\ny\n```", false),
        ("```__<BLOCK>__```", false),
        ("  ```a\nx\n```  ", true),
    ] {
        let m = Message::new(Role::Assistant, text, 0);
        assert_eq!(m.shows_all_blocks(), shown, "{text:?}");
        let mut index = 1;
        let numbered = m
            .formatted_content(&mut index, 8)
            .iter()
            .filter(|l| matches!(l, DisplayLine::Annotation(_)))
            .count();
        // a marker that the user wrote stands for no block, and none is shown for it
        let user_wrote_marker = text == BLOCK_MARKER;
        assert_eq!(
            numbered == m.code_blocks().len(),
            shown || user_wrote_marker,
            "{text:?}"
        );
    }
}

#[test]
fn fences_and_pieces_make_up_the_text() {
    // the marked text is the text with the marker in place of each fenced
    // block: putting the blocks back as they stood gives the text again
    for text in [
        "# T\n\n```python\nprint(1)\n```\nmid\n```js\nx=1\n```",
        "```\nbare\n```",
        "no block at all",
        "a ```rs\nlet x;\n``` b ```\ny\n```",
        "",
    ] {
        let m = Message::new(Role::User, text, 0);
        let mut rebuilt = String::new();
        let blocks = m.code_blocks();
        let pieces: Vec<&str> = m.non_code_content().split(BLOCK_MARKER).collect();
        assert_eq!(pieces.len(), blocks.len() + 1, "{text:?}");
        for (i, piece) in pieces.iter().enumerate() {
            rebuilt.push_str(piece);
            if i < blocks.len() {
                rebuilt.push_str(&blocks[i].as_raw());
            }
        }
        assert_eq!(rebuilt, text);
    }
}

#[test]
fn markers_are_counted_as_the_blocks() {
    // none of these texts holds the marker, though some hold parts of it
    // next to a fence
    for (text, blocks) in [
        ("plain", 0),
        ("```\na\n```", 1),
        ("```__<BLOCK>__\n```js\nx\n```", 1),
        ("```a\n1\n```__<BLOCK>__", 1),
        ("`````a\n1\n`````", 1),
        ("x```a\n1\n``````b\n2\n```y", 2),
        ("__<BLOCK>__``````a\n1\n```\n``__<BLOCK>__", 1),
    ] {
        assert!(!text.contains(BLOCK_MARKER), "{text:?}");
        let m = Message::new(Role::Assistant, text, 0);
        assert_eq!(m.code_blocks().len(), blocks, "{text:?}");
        assert_eq!(
            m.non_code_content().matches(BLOCK_MARKER).count(),
            blocks,
            "{text:?}"
        );
        assert_eq!(
            m.non_code_content().match_indices(BLOCK_MARKER).count(),
            m.non_code_content()
                .char_indices()
                .filter(|(i, _)| m.non_code_content()[*i..].starts_with(BLOCK_MARKER))
                .count(),
            "{text:?}"
        );
    }
}
