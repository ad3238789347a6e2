use completion_kit::echo_agent::{
    answer_to, extract_prompt_text, generate_markdown, generate_plain, is_blank, read_line,
    read_message, setting_or, BodyStream, EchoAction, EchoAgent, EchoSettings, Incoming,
    PromptBlock, StreamStep,
};
use serde_json::Value;

fn defaults() -> EchoSettings {
    EchoSettings::read(None, None, None, None, None)
}

#[test]
fn settings_have_defaults() {
    assert_eq!(
        defaults(),
        EchoSettings {
            delay_ms: 20,
            chunk_chars: 6,
            repeat: 1,
            lines: 0,
            plain: false,
        }
    );
    assert_eq!(
        EchoSettings::read(
            Some("0"),
            Some("0"),
            Some("3"),
            Some("7000"),
            Some("yes"),
        ),
        EchoSettings {
            delay_ms: 0,
            chunk_chars: 1,
            repeat: 3,
            lines: 7000,
            plain: false,
        }
    );
    assert!(EchoSettings::read(None, None, None, None, Some("2")).plain);
    assert_eq!(setting_or(Some("12"), 5), 12);
    assert_eq!(setting_or(Some("twelve"), 5), 5);
    assert_eq!(setting_or(None, 5), 5);
}

#[test]
fn markdown_has_one_block_for_each_number() {
    assert_eq!(generate_markdown(0), "");
    let expected = concat_blocks(6);
    assert_eq!(generate_markdown(6), expected);
    assert!(generate_markdown(23).starts_with(&expected));
    assert!(generate_markdown(23).ends_with("- bullet 22 a\n- bullet 22 b\n- bullet 22 c\n\n"));
}

fn concat_blocks(blocks: usize) -> String {
    let mut out = String::new();
    for i in 0..blocks {
        match i % 5 {
            0 => out.push_str(&format!("## Heading {i}\n\n")),
            1 => out.push_str(&format!(
                "Paragraph {i} with some **bold**, _italic_, `inline code`, and a \
                 [link](https://example.com) plus enough filler words to wrap across the \
                 agent panel a couple of times over.\n\n"
            )),
            2 => out.push_str(&format!(
                "- bullet {i} a\n- bullet {i} b\n- bullet {i} c\n\n"
            )),
            3 => out.push_str(&format!(
                "```rust\nfn block_{i}() -> usize {{ let x = {i}; x * 2 + 1 }}\n```\n\n"
            )),
            _ => out.push_str(&format!(
                "> quote {i} that wraps a little when the panel is narrow enough\n\n"
            )),
        }
    }
    out
}

#[test]
fn plain_document_is_one_line() {
    assert_eq!(generate_plain(0), "");
    assert_eq!(
        generate_plain(2),
        "This is plain sentence number 0 with a handful of perfectly ordinary words and \
         no markdown structure whatsoever to speak of here. \
         This is plain sentence number 1 with a handful of perfectly ordinary words and \
         no markdown structure whatsoever to speak of here."
    );
    assert!(!generate_plain(40).contains('\n'));
}

#[test]
fn prompt_is_echoed() {
    let mut settings = defaults();
    assert_eq!(answer_to(&settings, "hi"), "hi");
    assert_eq!(answer_to(&settings, ""), "_(echo: empty prompt)_");
    settings.repeat = 3;
    assert_eq!(answer_to(&settings, "hi"), "hi\n\nhi\n\nhi");
    assert_eq!(answer_to(&settings, ""), "\n\n\n\n");
    settings.lines = 3;
    assert_eq!(answer_to(&settings, "hi"), generate_markdown(3));
    settings.plain = true;
    assert_eq!(answer_to(&settings, "hi"), generate_plain(3));
}

fn block(kind: Option<&str>, text: Option<&str>) -> PromptBlock {
    PromptBlock {
        kind: kind.map(|kind| kind.to_string()),
        text: text.map(|text| text.to_string()),
    }
}

#[test]
fn only_blocks_of_text_make_up_the_prompt() {
    assert_eq!(extract_prompt_text(&vec![]), "");
    assert_eq!(
        extract_prompt_text(&vec![
            block(Some("text"), Some("a")),
            block(Some("image"), Some("b")),
            block(None, Some("c")),
            block(Some("text"), None),
            block(Some("text"), Some("d")),
        ]),
        "ad"
    );
}

fn read(line: &str) -> Incoming {
    read_line(line).expect("a message")
}

fn prompt_of(incoming: &Incoming) -> Vec<(Option<&str>, Option<&str>)> {
    incoming
        .prompt
        .iter()
        .map(|block| (block.kind.as_deref(), block.text.as_deref()))
        .collect()
}

#[test]
fn lines_without_a_message_are_passed_over() {
    assert!(is_blank(""));
    assert!(is_blank(" \t\r"));
    assert!(!is_blank(" {} "));
    assert!(read_line("").is_none());
    assert!(read_line(" \t\r").is_none());
    assert!(read_line("hello").is_none());
    assert!(read_line("{").is_none());
    assert!(read_line("{} {}").is_none());
    assert!(read_line("{}").is_some());
    assert!(read_line(" {}\r").is_some());
    assert!(read_line("null").is_some());
}

#[test]
fn method_is_read_where_it_is_a_text() {
    let incoming = read(r#"{"jsonrpc":"2.0","id":7,"method":"initialize","params":{}}"#);
    assert_eq!(incoming.method.as_deref(), Some("initialize"));
    assert_eq!(incoming.message.get("jsonrpc"), Some(&Value::from("2.0")));
    assert_eq!(read(r#"{"method":""}"#).method.as_deref(), Some(""));
    assert_eq!(read(r#"{"method":3}"#).method, None);
    assert_eq!(read(r#"{"method":null}"#).method, None);
    assert_eq!(read(r#"{"params":{"method":"initialize"}}"#).method, None);
    assert_eq!(read(r#"["method"]"#).method, None);
    assert_eq!(read(r#""method""#).method, None);
}

#[test]
fn id_is_there_even_where_it_is_null() {
    let incoming = read(r#"{"id":7}"#);
    assert!(incoming.has_id);
    assert_eq!(incoming.id(), Some(&Value::from(7)));
    let incoming = read(r#"{"id":null}"#);
    assert!(incoming.has_id);
    assert_eq!(incoming.id(), Some(&Value::Null));
    let incoming = read(r#"{"params":{"id":7}}"#);
    assert!(!incoming.has_id);
    assert_eq!(incoming.id(), None);
    assert!(!read(r#"["id"]"#).has_id);
}

#[test]
fn session_is_found_under_the_parameters() {
    let incoming = read(r#"{"params":{"sessionId":"echo-3"}}"#);
    assert_eq!(incoming.session_id(), Some(&Value::from("echo-3")));
    assert_eq!(read(r#"{"sessionId":"echo-3"}"#).session_id(), None);
    assert_eq!(read(r#"{"params":"sessionId"}"#).session_id(), None);
}

#[test]
fn prompt_is_read_block_by_block() {
    let incoming = read(
        r#"{"params":{"prompt":[
            {"type":"text","text":"a"},
            {"type":"image","text":"b"},
            {"text":"c"},
            {"type":"text"},
            {"type":"text","text":4},
            "text",
            {"type":"text","text":"d\n"}
        ]}}"#,
    );
    assert_eq!(
        prompt_of(&incoming),
        vec![
            (Some("text"), Some("a")),
            (Some("image"), Some("b")),
            (None, Some("c")),
            (Some("text"), None),
            (Some("text"), None),
            (None, None),
            (Some("text"), Some("d\n")),
        ]
    );
    assert_eq!(extract_prompt_text(&incoming.prompt), "ad\n");
    assert!(read(r#"{"params":{"prompt":[]}}"#).prompt.is_empty());
    assert!(read(r#"{"params":{"prompt":"text"}}"#).prompt.is_empty());
    assert!(read(r#"{"params":{"prompt":{"type":"text","text":"a"}}}"#).prompt.is_empty());
    assert!(read(r#"{"params":{}}"#).prompt.is_empty());
    assert!(read(r#"{"prompt":[{"type":"text","text":"a"}]}"#).prompt.is_empty());
    assert!(read("{}").prompt.is_empty());
}

#[test]
fn message_is_read_as_its_line_is() {
    let line = r#"{"id":1,"method":"session/prompt","params":{"prompt":[{"type":"text","text":"a"}]}}"#;
    let message: Value = line.parse().expect("a document");
    let incoming = read_message(message.clone());
    assert_eq!(incoming.message, message);
    assert_eq!(incoming.method.as_deref(), Some("session/prompt"));
    assert!(incoming.has_id);
    assert_eq!(prompt_of(&incoming), vec![(Some("text"), Some("a"))]);
    let incoming = read(line);
    assert_eq!(incoming.message, message);
    assert_eq!(incoming.method.as_deref(), Some("session/prompt"));
    assert!(incoming.has_id);
    assert_eq!(prompt_of(&incoming), vec![(Some("text"), Some("a"))]);
}

#[test]
fn kinds_of_messages_are_told_by_method() {
    let cancel = read(r#"{"method":"session/cancel"}"#);
    assert!(cancel.is_cancel() && !cancel.is_prompt() && !cancel.opens_session());
    let prompt = read(r#"{"method":"session/prompt"}"#);
    assert!(!prompt.is_cancel() && prompt.is_prompt() && !prompt.opens_session());
    let new = read(r#"{"method":"session/new"}"#);
    assert!(!new.is_cancel() && !new.is_prompt() && new.opens_session());
    let other = read("{}");
    assert!(!other.is_cancel() && !other.is_prompt() && !other.opens_session());
}

#[test]
fn messages_are_answered_by_method() {
    let mut agent = EchoAgent::new(defaults());
    assert!(matches!(agent.handle(&read(r#"{"id":1}"#)), EchoAction::Skip));
    assert!(matches!(
        agent.handle(&read(r#"{"id":1,"method":"initialize"}"#)),
        EchoAction::Initialize
    ));
    assert!(matches!(
        agent.handle(&read(r#"{"method":"authenticate"}"#)),
        EchoAction::Authenticate
    ));
    let open = read(r#"{"id":1,"method":"session/new"}"#);
    assert!(matches!(
        agent.handle(&open),
        EchoAction::OpenSession { session_id } if session_id == "echo-1"
    ));
    agent.session_counter = 41;
    assert!(matches!(
        agent.handle(&open),
        EchoAction::OpenSession { session_id } if session_id == "echo-42"
    ));
    assert_eq!(agent.session_counter, 42);
    assert!(matches!(
        agent.handle(&read(
            r#"{"id":1,"method":"session/prompt","params":{"prompt":[
                {"type":"text","text":"hel"},{"type":"text","text":"lo"}
            ]}}"#
        )),
        EchoAction::Stream { body } if body == "hello"
    ));
    assert!(matches!(
        agent.handle(&read(r#"{"method":"session/prompt"}"#)),
        EchoAction::Stream { body } if body == "_(echo: empty prompt)_"
    ));
    assert!(matches!(
        agent.handle(&read(r#"{"id":null,"method":"session/load"}"#)),
        EchoAction::NotFound
    ));
    assert!(matches!(
        agent.handle(&read(r#"{"method":"session/load"}"#)),
        EchoAction::Skip
    ));
}

#[test]
fn chunks_make_up_the_body() {
    let body = "añ\u{1F600}defgh";
    let mut stream = BodyStream::new(body, 3);
    let mut chunks = vec![];
    loop {
        match stream.step(false) {
            StreamStep::Chunk(chunk) => chunks.push(chunk),
            StreamStep::Stop(reason) => {
                assert_eq!(reason, "end_turn");
                break;
            }
        }
    }
    assert_eq!(chunks, vec!["añ\u{1F600}", "def", "gh"]);
    assert_eq!(chunks.concat(), body);
}

#[test]
fn cancelled_turn_stops() {
    let mut stream = BodyStream::new("abcdef", usize::MAX);
    assert!(matches!(stream.step(true), StreamStep::Stop("cancelled")));
    assert!(matches!(stream.step(false), StreamStep::Chunk(chunk) if chunk == "abcdef"));
    assert!(matches!(stream.step(true), StreamStep::Stop("end_turn")));
}

#[test]
fn turn_cancelled_midway_has_sent_the_first_chunks() {
    let mut stream = BodyStream::new("abcdefg", 3);
    assert!(matches!(stream.step(false), StreamStep::Chunk(chunk) if chunk == "abc"));
    assert!(matches!(stream.step(false), StreamStep::Chunk(chunk) if chunk == "def"));
    assert!(matches!(stream.step(true), StreamStep::Stop("cancelled")));
    assert!(matches!(stream.step(false), StreamStep::Chunk(chunk) if chunk == "g"));
    assert!(matches!(stream.step(false), StreamStep::Stop("end_turn")));
    assert!(matches!(stream.step(false), StreamStep::Stop("end_turn")));
}
