use trello_cli::bytes::{bytes_eq, clone_bytes};
use trello_cli::card::{has_label, label_command, Card, Label, LabelCommand};

fn label(id: &str, name: &str, color: &str) -> Label {
    Label {
        id: id.as_bytes().to_vec(),
        name: name.as_bytes().to_vec(),
        color: color.as_bytes().to_vec(),
    }
}

#[test]
fn new_card_is_open() {
    let c = Card::new(b"i".to_vec(), b"n".to_vec(), b"d".to_vec(), b"u".to_vec());
    assert!(!c.closed);
    assert_eq!(c.id, b"i".to_vec());
    assert_eq!(c.name, b"n".to_vec());
    assert_eq!(c.desc, b"d".to_vec());
    assert_eq!(c.url, b"u".to_vec());
}

#[test]
fn duplicate_copies_every_field() {
    let c = Card::new(b"i".to_vec(), b"n".to_vec(), b"d".to_vec(), b"u".to_vec());
    let d = c.duplicate();
    assert_eq!(d.id, c.id);
    assert_eq!(d.name, c.name);
    assert_eq!(d.desc, c.desc);
    assert_eq!(d.closed, c.closed);
    assert_eq!(d.url, c.url);
}

#[test]
fn into_closed_sets_only_the_flag() {
    let c = Card::new(b"i".to_vec(), b"n".to_vec(), b"d".to_vec(), b"u".to_vec());
    let closed = c.into_closed();
    assert!(closed.closed);
    assert_eq!(closed.name, b"n".to_vec());
}

#[test]
fn has_label_finds_matching_id() {
    let labels = vec![label("l1", "bug", "red"), label("l2", "chore", "blue")];
    assert!(has_label(&labels, &b"l2".to_vec()));
    assert!(!has_label(&labels, &b"l3".to_vec()));
    assert!(!has_label(&Vec::new(), &b"l1".to_vec()));
}

#[test]
fn label_command_covers_all_four_cases() {
    assert!(matches!(label_command(true, true), LabelCommand::Remove));
    assert!(matches!(label_command(true, false), LabelCommand::AlreadyAbsent));
    assert!(matches!(label_command(false, true), LabelCommand::AlreadyPresent));
    assert!(matches!(label_command(false, false), LabelCommand::Apply));
}

#[test]
fn bytes_helpers_compare_and_copy() {
    let a = b"abc".to_vec();
    let b = b"abd".to_vec();
    assert!(bytes_eq(&a, &clone_bytes(&a)));
    assert!(!bytes_eq(&a, &b));
    assert!(!bytes_eq(&a, &b"ab".to_vec()));
}
