use trello_cli::card::Card;
use trello_cli::session::{EditSession, ExitAction, PollAction};

fn card(name: &str, desc: &str) -> Card {
    Card::new(
        b"c42".to_vec(),
        name.as_bytes().to_vec(),
        desc.as_bytes().to_vec(),
        b"https://example.invalid/c/42".to_vec(),
    )
}

fn doc(name: &str, desc: &str) -> Vec<u8> {
    card(name, desc).render()
}

#[test]
fn untouched_session_closed_immediately_ends_clean() {
    // The scratch document is never modified and the editor exits before
    // any poll: no update, no prompt, session done.
    let mut session = EditSession::begin(card("title", "body"));
    let act = session.on_editor_exit();
    assert!(matches!(act, ExitAction::Finish));
    assert_eq!(session.card.name, b"title".to_vec());
    assert_eq!(session.card.desc, b"body".to_vec());
}

#[test]
fn first_valid_poll_always_submits() {
    // Even byte-identical content triggers the first update, because no
    // attempt has been made yet.
    let mut session = EditSession::begin(card("title", "body"));
    let act = session.on_poll(&doc("title", "body"));
    assert!(matches!(act, PollAction::Submit));
    session.on_update_result(true);
}

#[test]
fn identical_content_after_success_is_not_resubmitted() {
    let mut session = EditSession::begin(card("title", "body"));
    assert!(matches!(session.on_poll(&doc("title", "body")), PollAction::Submit));
    session.on_update_result(true);
    // Same bytes again: no second call.
    assert!(matches!(session.on_poll(&doc("title", "body")), PollAction::NoUpdate));
    assert!(matches!(session.on_poll(&doc("title", "body")), PollAction::NoUpdate));
    // A changed description is pushed exactly once.
    assert!(matches!(session.on_poll(&doc("title", "body v2")), PollAction::Submit));
    session.on_update_result(true);
    assert_eq!(session.card.desc, b"body v2".to_vec());
    assert!(matches!(session.on_poll(&doc("title", "body v2")), PollAction::NoUpdate));
}

#[test]
fn failed_update_is_retried_on_next_poll_even_if_unchanged() {
    let mut session = EditSession::begin(card("title", "body"));
    assert!(matches!(session.on_poll(&doc("title", "new body")), PollAction::Submit));
    session.on_update_result(false);
    // Identical content, but the previous attempt failed: submit again.
    assert!(matches!(session.on_poll(&doc("title", "new body")), PollAction::Submit));
    session.on_update_result(true);
    assert!(matches!(session.on_poll(&doc("title", "new body")), PollAction::NoUpdate));
}

#[test]
fn failure_prompts_before_any_second_editor_session() {
    let mut session = EditSession::begin(card("title", "body"));
    assert!(matches!(session.on_poll(&doc("title", "edited")), PollAction::Submit));
    session.on_update_result(false);
    let act = session.on_editor_exit();
    assert!(matches!(act, ExitAction::PromptRetry));
    // The user declines: the session simply ends, no further calls.
    session.on_retry_decision(false);
}

#[test]
fn retry_acknowledgment_reopens_polling() {
    let mut session = EditSession::begin(card("title", "body"));
    assert!(matches!(session.on_poll(&doc("title", "edited")), PollAction::Submit));
    session.on_update_result(false);
    assert!(matches!(session.on_editor_exit(), ExitAction::PromptRetry));
    session.on_retry_decision(true);
    // Polling resumed; the still-failed outcome forces a resubmission.
    assert!(matches!(session.on_poll(&doc("title", "edited")), PollAction::Submit));
    session.on_update_result(true);
    assert!(matches!(session.on_editor_exit(), ExitAction::Finish));
}

#[test]
fn unparsable_polls_are_skipped_then_one_update() {
    let mut session = EditSession::begin(card("title", "body"));
    assert!(matches!(session.on_poll(&doc("title", "body")), PollAction::Submit));
    session.on_update_result(true);
    // Editors may write transient states with no delimiter line: skipped.
    let garbage = b"half-saved buffer without a delimiter".to_vec();
    assert!(matches!(session.on_poll(&garbage), PollAction::Skip));
    assert!(matches!(session.on_poll(&garbage), PollAction::Skip));
    assert!(matches!(session.on_poll(&garbage), PollAction::Skip));
    // The in-memory copy is untouched by unparsable polls.
    assert_eq!(session.card.name, b"title".to_vec());
    assert_eq!(session.card.desc, b"body".to_vec());
    // The first valid differing poll issues exactly one update.
    assert!(matches!(session.on_poll(&doc("title two", "body")), PollAction::Submit));
    session.on_update_result(true);
    assert!(matches!(session.on_poll(&doc("title two", "body")), PollAction::NoUpdate));
}

#[test]
fn successful_session_ends_without_prompt() {
    let mut session = EditSession::begin(card("a", "b"));
    assert!(matches!(session.on_poll(&doc("a", "c")), PollAction::Submit));
    session.on_update_result(true);
    assert!(matches!(session.on_editor_exit(), ExitAction::Finish));
}
