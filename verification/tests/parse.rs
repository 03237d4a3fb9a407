use gptui::client::classify_line;
use gptui::client::chunk_from_value;
use gptui::client::decode_line;
use gptui::client::frames_of;
use gptui::client::reply_items;
use gptui::client::title_from_response;
use gptui::client::try_parse_chunks;
use gptui::client::Line;
use gptui::client::ReplyStream;
use gptui::error::Error;
use gptui::json::JsonFailure;
use gptui::session::string_preview;

fn chunk(content: &str) -> String {
    format!(
        "data: {{\"id\":\"c1\",\"created\":1,\"choices\":[{{\"index\":0,\"delta\":{{\"content\":{}}},\"finish_reason\":null}}]}}\n",
        serde_json::Value::String(content.to_string())
    )
}

#[test]
fn test_parse_chunks() {
    let data = r#"
         data: {"id":"chatcmpl-123","object":"chat.completion.chunk","created":1694268190,"model":"gpt-3.5-turbo-0613", "system_fingerprint": "fp_44709d6fcb", "choices":[{"index":0,"delta":{"role":"assistant","content":""},"finish_reason":null}]}
data: {"id":"chatcmpl-123","object":"chat.completion.chunk","created":1694268190,"model":"gpt-3.5-turbo-0613", "system_fingerprint": "fp_44709d6fcb", "choices":[{"index":0,"delta":{"content":"!"},"finish_reason":null}]}
data: {"id":"chatcmpl-123","object":"chat.completion.chunk","created":1694268190,"model":"gpt-3.5-turbo-0613", "system_fingerprint": "fp_44709d6fcb", "choices":[{"index":0,"delta":{"content":" today"},"finish_reason":null}]}
{"id":"chatcmpl-123","object":"chat.completion.chunk", "c
        "#;

    let (parsed, remaining) = try_parse_chunks(data).unwrap();

    let parsed = parsed.unwrap();
    let remaining = remaining.unwrap();

    assert_eq!(
        remaining.as_str(),
        r#"{"id":"chatcmpl-123","object":"chat.completion.chunk", "c"#
    );

    assert_eq!(parsed.len(), 3);
    for (token, expected) in parsed
        .into_iter()
        .map(|chunk| chunk.token())
        .zip(["", "!", " today"].into_iter())
    {
        assert!(token.is_some());
        assert_eq!(token.unwrap().as_str(), expected);
    }
}

#[test]
fn test_string_preview() {
    assert_eq!(
        string_preview("llorum ipsum dolor sit amet", 9),
        "llorum..."
    )
}

#[test]
fn preview_keeps_short_text_and_cuts_by_characters() {
    assert_eq!(string_preview("short", 5), "short");
    assert_eq!(string_preview("short", 100), "short");
    assert_eq!(string_preview("abcdef", 2), "..");
    assert_eq!(string_preview("abcdef", 0), "");
    assert_eq!(string_preview("abcdef", 4), "a...");
    // five characters in ten bytes: longer than the limit in bytes
    assert_eq!(string_preview("ééééé", 7), "éééé...");
}

#[test]
fn empty_input_holds_nothing() {
    assert_eq!(try_parse_chunks("").unwrap(), (None, None));
    assert_eq!(try_parse_chunks("\n  \ndata:\n").unwrap(), (None, None));
}

#[test]
fn done_mark_ends_the_records() {
    let input = format!("{}data: [DONE]\n{}", chunk("a"), chunk("b"));
    let (parsed, rest) = try_parse_chunks(&input).unwrap();
    let parsed = parsed.unwrap();
    assert_eq!(parsed.len(), 1);
    assert_eq!(parsed[0].token(), Some("a".to_string()));
    assert_eq!(rest, None);
}

#[test]
fn line_that_is_no_record_fails() {
    let input = format!("{}data: nonsense\n", chunk("a"));
    assert!(matches!(
        try_parse_chunks(&input),
        Err(Error::JsonParseError(_))
    ));
    assert!(matches!(
        try_parse_chunks("data: {\"id\": 5}\n"),
        Err(Error::JsonParseError(_))
    ));
}

#[test]
fn remainder_holds_every_line_from_the_incomplete_one_on() {
    let input = format!("{}data: {{\"id\":\n{}", chunk("a"), chunk("b"));
    let (parsed, rest) = try_parse_chunks(&input).unwrap();
    assert_eq!(parsed.unwrap().len(), 1);
    let second = chunk("b");
    let expected = format!(
        "{{\"id\":\n{}",
        second.trim().trim_start_matches("data:").trim()
    );
    assert_eq!(rest, Some(expected));
}

#[test]
fn lines_are_classified() {
    assert_eq!(decode_line("[DONE]"), Line::Done);
    assert_eq!(decode_line("[DON"), Line::Invalid);
    assert_eq!(decode_line("{\"id\":\"x\", \"cre"), Line::Incomplete);
    assert_eq!(decode_line("[1, 2"), Line::Incomplete);
    assert_eq!(decode_line("17"), Line::Invalid);
    assert_eq!(decode_line("{}"), Line::Invalid);
    assert!(matches!(
        decode_line("{\"id\":\"x\",\"created\":3,\"choices\":[{}]}"),
        Line::Record(_)
    ));
    assert_eq!(classify_line("[DONE]", Err(JsonFailure::Syntax)), Line::Done);
    assert_eq!(classify_line("[DONE]", Err(JsonFailure::Eof)), Line::Incomplete);
    assert_eq!(classify_line("[DONE]", Err(JsonFailure::Data)), Line::Invalid);
    assert_eq!(classify_line("x", Err(JsonFailure::Syntax)), Line::Invalid);
}

#[test]
fn chunk_shape_is_checked() {
    let ok = serde_json::from_str::<serde_json::Value>(
        "{\"id\":\"a\",\"created\":7,\"choices\":[{\"delta\":{\"content\":\"hi\"}},{\"delta\":{\"content\":\"no\"}}]}",
    )
    .unwrap();
    let c = chunk_from_value(&ok).unwrap();
    assert_eq!(c.id, "a");
    assert_eq!(c.created, 7);
    assert_eq!(c.choices.len(), 1);
    assert_eq!(c.token(), Some("hi".to_string()));

    let null_content = serde_json::from_str::<serde_json::Value>(
        "{\"id\":\"a\",\"created\":7,\"choices\":[{\"delta\":{\"content\":null}}]}",
    )
    .unwrap();
    assert_eq!(chunk_from_value(&null_content).unwrap().token(), None);

    let absent = serde_json::from_str::<serde_json::Value>(
        "{\"id\":\"a\",\"created\":7,\"choices\":[{\"delta\":{}}]}",
    )
    .unwrap();
    assert_eq!(chunk_from_value(&absent).unwrap().token(), None);

    for bad in [
        "[]",
        "{\"created\":7,\"choices\":[{}]}",
        "{\"id\":1,\"created\":7,\"choices\":[{}]}",
        "{\"id\":\"a\",\"choices\":[{}]}",
        "{\"id\":\"a\",\"created\":-1,\"choices\":[{}]}",
        "{\"id\":\"a\",\"created\":1.5,\"choices\":[{}]}",
        "{\"id\":\"a\",\"created\":7,\"choices\":[]}",
        "{\"id\":\"a\",\"created\":7,\"choices\":{}}",
        "{\"id\":\"a\",\"created\":7}",
        "{\"id\":\"a\",\"created\":7,\"choices\":[{\"delta\":{\"content\":5}}]}",
    ] {
        let v = serde_json::from_str::<serde_json::Value>(bad).unwrap();
        assert_eq!(chunk_from_value(&v), None, "{bad}");
    }
}

#[test]
fn frames_drop_tags_and_white_space() {
    let frames = frames_of("  data: {\"a\"}  \r\n\n data:data: x\ndata:\nlast");
    let texts: Vec<String> = frames.iter().map(|f| f.iter().collect()).collect();
    assert_eq!(texts, vec!["{\"a\"}", "x", "last"]);
}

#[test]
fn reply_channel_protocol() {
    let pieces = vec![
        chunk("Hi"),
        chunk(" "),
        chunk("there"),
        "data: [DONE]\n".to_string(),
    ];
    let items = reply_items(&pieces).unwrap();
    assert_eq!(
        items,
        vec![
            Some("Hi".to_string()),
            Some(" ".to_string()),
            Some("there".to_string()),
            None
        ]
    );
}

#[test]
fn reply_ends_with_exactly_one_sentinel() {
    for pieces in [
        vec![],
        vec!["data: [DONE]\n".to_string()],
        vec![chunk("a"), chunk("b")],
        vec![format!("{}{}", chunk("a"), chunk("b")), chunk("c")],
    ] {
        let items = reply_items(&pieces).unwrap();
        assert_eq!(items.iter().filter(|i| i.is_none()).count(), 1);
        assert_eq!(items.last(), Some(&None));
    }
}

#[test]
fn reply_cut_within_a_record_fails() {
    let whole = chunk("a");
    let cut = &whole[..whole.len() - 10];
    assert!(matches!(
        reply_items(&vec![cut.to_string()]),
        Err(Error::ChannelError(_))
    ));
    assert!(matches!(
        reply_items(&vec!["data: nonsense\n".to_string()]),
        Err(Error::JsonParseError(_))
    ));
}

#[test]
fn pieces_give_the_records_of_the_whole() {
    let whole = format!("{}{}{}", chunk("one"), chunk("two"), chunk("three"));
    let single: Vec<Option<String>> = try_parse_chunks(&whole)
        .unwrap()
        .0
        .unwrap()
        .iter()
        .map(|c| c.token())
        .collect();
    let first_line_end = whole.find('\n').unwrap() + 1;
    for cut in [first_line_end, first_line_end + 20, whole.len() - 5, 8] {
        let mut stream = ReplyStream::new();
        let mut items = stream.feed(&whole[..cut]).unwrap();
        items.extend(stream.feed(&whole[cut..]).unwrap());
        assert_eq!(items, single, "cut at {cut}");
        assert_eq!(stream.finish().unwrap(), vec![None]);
    }
}

#[test]
fn title_is_read_from_the_response() {
    assert_eq!(
        title_from_response("{\"choices\":[{\"message\":{\"content\":\"A title\"}}]}").unwrap(),
        "A title"
    );
    assert_eq!(
        title_from_response("{\"choices\":[]}"),
        Err(Error::Other("Could not parse JSON response".to_string()))
    );
    assert!(matches!(
        title_from_response("{\"choices\""),
        Err(Error::JsonParseError(_))
    ));
}

#[test]
fn cuts_before_the_document_give_the_records_of_the_whole() {
    let whole = format!("  {}{}", chunk("one"), chunk("two"));
    let single: Vec<Option<String>> = try_parse_chunks(&whole)
        .unwrap()
        .0
        .unwrap()
        .iter()
        .map(|c| c.token())
        .collect();
    assert_eq!(single.len(), 2);
    let second = whole.find('\n').unwrap() + 1;
    let tag = "data:".len();
    // in the white space before the tag, right after the tag, and after the
    // white space that follows the tag, in the first line and in the second
    for cut in [1, 2, 2 + tag, 2 + tag + 1, second + tag, second + tag + 1] {
        let mut stream = ReplyStream::new();
        let mut items = stream.feed(&whole[..cut]).unwrap();
        items.extend(stream.feed(&whole[cut..]).unwrap());
        assert_eq!(items, single, "cut at {cut}");
        assert_eq!(stream.finish().unwrap(), vec![None]);
    }
    // three pieces, with two cuts in one line
    let mut stream = ReplyStream::new();
    let mut items = stream.feed(&whole[..2 + tag]).unwrap();
    items.extend(stream.feed(&whole[2 + tag..2 + tag + 9]).unwrap());
    items.extend(stream.feed(&whole[2 + tag + 9..]).unwrap());
    assert_eq!(items, single);
}

#[test]
fn a_cut_within_the_tag_fails() {
    let whole = chunk("one");
    let mut stream = ReplyStream::new();
    assert!(matches!(
        stream.feed(&whole[..3]),
        Err(Error::JsonParseError(_))
    ));
}

#[test]
fn a_cut_after_white_space_in_a_document_loses_the_white_space() {
    // what is left of a piece is kept without the white space at its end:
    // a cut behind a space within a text of the document joins what the
    // space parted
    let whole = chunk("a b");
    let cut = whole.find("a b").unwrap() + 2;
    let mut stream = ReplyStream::new();
    let mut items = stream.feed(&whole[..cut]).unwrap();
    assert!(items.is_empty());
    items.extend(stream.feed(&whole[cut..]).unwrap());
    assert_eq!(items, vec![Some("ab".to_string())]);
    // a cut before the space keeps it
    let mut stream = ReplyStream::new();
    let mut items = stream.feed(&whole[..cut - 1]).unwrap();
    items.extend(stream.feed(&whole[cut - 1..]).unwrap());
    assert_eq!(items, vec![Some("a b".to_string())]);
}
