use trello_cli::card::Card;
use trello_cli::codec::{trim_end, CardContents, ParseError};

fn card(name: &str, desc: &str) -> Card {
    Card::new(
        b"id-1".to_vec(),
        name.as_bytes().to_vec(),
        desc.as_bytes().to_vec(),
        b"https://example.invalid/c/1".to_vec(),
    )
}

#[test]
fn render_is_name_delimiter_desc() {
    let c = card("hello", "world");
    let text = c.render();
    assert_eq!(text, b"hello\n=====\nworld".to_vec());
}

#[test]
fn render_empty_name_keeps_nonempty_delimiter() {
    let c = card("", "some text");
    let text = c.render();
    assert_eq!(text, b"\n=\nsome text".to_vec());
}

#[test]
fn parse_recovers_name_and_desc() {
    let text = b"my card\n=======\nline one\nline two".to_vec();
    let contents = CardContents::parse(&text).unwrap();
    assert_eq!(contents.name, b"my card".to_vec());
    assert_eq!(contents.desc, b"line one\nline two".to_vec());
}

#[test]
fn parse_without_delimiter_fails() {
    let text = b"just a name and nothing else".to_vec();
    let err = CardContents::parse(&text);
    assert!(matches!(err, Err(ParseError::MissingDelimiter)));
}

#[test]
fn parse_empty_document_fails() {
    let text = Vec::new();
    assert!(CardContents::parse(&text).is_err());
}

#[test]
fn round_trip_reproduces_fields() {
    let c = card("release checklist", "step one\nstep two\n\nstep three");
    let contents = CardContents::parse(&c.render()).unwrap();
    assert_eq!(contents.name, c.name);
    assert_eq!(contents.desc, c.desc);
}

#[test]
fn round_trip_with_multiline_name() {
    let c = card("first line\nsecond line", "body");
    let contents = CardContents::parse(&c.render()).unwrap();
    assert_eq!(contents.name, b"first line\nsecond line".to_vec());
    assert_eq!(contents.desc, b"body".to_vec());
}

#[test]
fn round_trip_tolerates_trailing_newlines() {
    let c = card("a name", "a description");
    let mut text = c.render();
    text.push(b'\n');
    text.push(b'\n');
    let contents = CardContents::parse(&trim_end(&text)).unwrap();
    assert_eq!(contents.name, b"a name".to_vec());
    assert_eq!(contents.desc, b"a description".to_vec());
}

#[test]
fn trim_end_removes_only_trailing_whitespace() {
    let text = b"  keep \tthis  \t\r\n \n".to_vec();
    assert_eq!(trim_end(&text), b"  keep \tthis".to_vec());
}

#[test]
fn trim_end_of_whitespace_only_is_empty() {
    let text = b" \t\r\n".to_vec();
    assert_eq!(trim_end(&text), Vec::<u8>::new());
}
