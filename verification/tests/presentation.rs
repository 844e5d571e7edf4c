//! Text for a person at a terminal.
use mailctl::encoding::OutputBudget;
use mailctl::frontends::presentation::{append_body, human, metadata_text, unsafe_character};

fn message(account: &str) -> String {
    let mut object = serde_json::Map::new();
    object.insert(
        "account_id".to_string(),
        serde_json::Value::String(account.to_string()),
    );
    object.insert(
        "message_reference".to_string(),
        serde_json::Value::String("message".to_string()),
    );
    serde_json::to_string_pretty(&serde_json::Value::Object(object)).unwrap()
}

#[test]
fn labels_and_incomplete_sequences_stay_inert() {
    let rendered = human(&message("name\n\t\r\u{1b}\u{009b}\u{202e}\u{e9}"), Some(""));
    assert!(
        !rendered.contains('\u{1b}')
            && !rendered.contains('\u{009b}')
            && !rendered.contains('\u{202e}')
    );
    assert!(rendered.contains("\u{e9}"));
    for sequence in [
        "\u{1b}]8;;url",
        "\u{1b}Ppayload",
        "\u{009d}payload",
        "\u{1b}[31",
    ] {
        assert!(
            human(&message("account"), Some(&format!("before{sequence}")))
                .ends_with("Body:\nbefore")
        );
    }
    assert!(
        human(
            &message("account"),
            Some("a\u{1b}]8;;url\u{1b}\\b\u{009b}31mc\u{009d}title\u{009c}d")
        )
        .ends_with("Body:\nabcd")
    );
}

#[test]
fn human_body_preserves_paragraphs_and_neutralizes_terminal_controls() {
    let text = "First caf\u{e9}\r\n\r\nSecond\tcolumn\rThird\u{1b}]52;c;clipboard\u{7}safe\u{1b}[31mred\u{1b}[0m\u{202e}\u{0}";
    let mut body = serde_json::Map::new();
    body.insert("text".to_string(), serde_json::Value::String(text.to_string()));
    let mut semantic = serde_json::Map::new();
    semantic.insert("body".to_string(), serde_json::Value::Object(body));
    let rendered = human(&message("account"), semantic["body"]["text"].as_str());
    assert!(
        rendered.contains("First caf\u{e9}\n\nSecond    column\nThirdsafered\\u{202e}\\u{0000}"),
        "{rendered}"
    );
    assert!(!rendered.contains("clipboard"));
    assert!(!rendered.contains('\u{1b}'));
    let semantic = serde_json::to_value(&semantic).unwrap();
    assert!(semantic["body"]["text"].as_str().unwrap().contains("\u{1b}]52;c;clipboard"));
}

#[test]
fn plain_text_is_shown_as_it_is() {
    let mut output = String::new();
    append_body(&mut output, "one\ntwo \u{1f600}");
    assert_eq!(output, "one\ntwo \u{1f600}");
    assert_eq!(metadata_text("plain \u{e9}"), "plain \u{e9}");
    assert_eq!(metadata_text("a\u{7}b"), "a\\u{0007}b");
    assert!(unsafe_character('\u{7}') && unsafe_character('\u{200f}'));
    assert!(!unsafe_character('a'));
    assert!(!human("{}", None).contains("Body:"));
}

struct Sink {
    budget: OutputBudget,
    bytes: Vec<u8>,
}

impl std::io::Write for Sink {
    fn write(&mut self, bytes: &[u8]) -> std::io::Result<usize> {
        self.budget
            .reserve(bytes.len())
            .map_err(|_| std::io::Error::other("limit"))?;
        self.bytes.extend_from_slice(bytes);
        Ok(bytes.len())
    }

    fn flush(&mut self) -> std::io::Result<()> {
        Ok(())
    }
}

#[test]
fn response_serialization_stops_at_the_frame_ceiling() {
    let mut object = serde_json::Map::new();
    object.insert("ok".to_string(), serde_json::Value::Bool(true));
    let value = serde_json::Value::Object(object);
    let mut sink = Sink { budget: OutputBudget::new(11), bytes: Vec::new() };
    serde_json::to_writer(&mut sink, &value).unwrap();
    assert_eq!(sink.bytes, br#"{"ok":true}"#);
    let mut sink = Sink { budget: OutputBudget::new(10), bytes: Vec::new() };
    assert!(serde_json::to_writer(&mut sink, &value).is_err());
    assert_eq!(
        sink.budget.reserve(11).unwrap_err().code,
        mailctl::domain::ErrorCode::ResponseTooLarge
    );
}
