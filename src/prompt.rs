use vstd::prelude::*;

use crate::note::Note;

verus! {

/// The system prompt for questions about a note.
pub const SYS_PROMPT_CONSIDER_NOTE: &'static str = "You are a personal assistant. You advise on notes
 presented to you. Notes presented to you are created by the user.  In your answers to strive
 to improve understanding and clarity of the note for the user. Format all responses in valid Markdown
 but do not surround the response in ticks (```)";

/// The text of the note the question is about; empty when there is none.
pub fn prompt_note_content(note: &Option<Note>) -> (r: String)
    ensures
        r@ == match note {
            Some(n) => n.text@,
            None => Seq::<char>::empty(),
        },
{
    match note {
        Some(n) => n.text.clone(),
        None => String::new(),
    }
}

/// The user prompt followed by the note's text, which stands between
/// `<note-content>` and `</note-content>` lines.
pub fn compose_note_prompt(prompt: &str, note_content: &str) -> (r: String)
    ensures
        r@ == prompt@ + "\n<note-content>"@ + note_content@ + "\n</note-content>"@,
{
    let mut s = prompt.to_string();
    s.append("\n<note-content>");
    s.append(note_content);
    s.append("\n</note-content>");
    s
}

/// An API key can be used when it is not empty.
pub fn api_key_usable(key: &str) -> (r: bool)
    ensures
        r == (key@.len() > 0),
{
    key.unicode_len() > 0
}

} // verus!
