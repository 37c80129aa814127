use knowling::note::Note;
use knowling::prompt::{api_key_usable, compose_note_prompt, prompt_note_content, SYS_PROMPT_CONSIDER_NOTE};

#[test]
fn prompt_wraps_the_note_content() {
    assert_eq!(
        compose_note_prompt("Summarize", "my text"),
        "Summarize\n<note-content>my text\n</note-content>"
    );
}

#[test]
fn missing_note_gives_empty_content() {
    assert_eq!(prompt_note_content(&None), "");
    assert_eq!(prompt_note_content(&Some(Note::new("1", "body"))), "body");
}

#[test]
fn empty_api_key_is_unusable() {
    assert!(!api_key_usable(""));
    assert!(api_key_usable("k"));
    assert!(SYS_PROMPT_CONSIDER_NOTE.starts_with("You are a personal assistant."));
}
