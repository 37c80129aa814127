use knowling::document::{documents_from_columns, documents_with_distances, Document, Documentable};
use knowling::error::NotebookError;
use knowling::notebook::{is_note_file_name, EmbedAction, Notebook};
use knowling::similar::{Distance, SimilarHit};

fn notebook() -> Notebook {
    Notebook::from_connection(rusqlite::Connection::open_in_memory().unwrap()).unwrap()
}

#[test]
fn created_note_reads_back() {
    let mut nb = notebook();
    let note = nb.upsert_note(None, "a note\nwith two lines").unwrap();
    let back = nb.get_note_by_id(note.get_id()).unwrap().unwrap();
    assert_eq!(back.get_text(), "a note\nwith two lines");
    assert_eq!(back.get_created(), note.get_created());
    let actions = nb.take_embed_actions();
    assert_eq!(actions.len(), 1);
    match &actions[0] {
        EmbedAction::Upsert(chunks) => {
            assert_eq!(chunks.len(), 1);
            assert_eq!(chunks[0].id, note.get_id());
            assert_eq!(chunks[0].text, "a note\nwith two lines");
        }
        other => panic!("unexpected action {:?}", other),
    }
    assert!(nb.take_embed_actions().is_empty());
}

#[test]
fn update_replaces_text_and_keeps_id() {
    let mut nb = notebook();
    let note = nb.upsert_note(None, "first").unwrap();
    let updated = nb.upsert_note(Some(note.get_id()), "second").unwrap();
    assert_eq!(updated.get_id(), note.get_id());
    assert_eq!(updated.get_text(), "second");
    let back = nb.get_note_by_id(note.get_id()).unwrap().unwrap();
    assert_eq!(back.get_text(), "second");
    assert_eq!(nb.get_notes().unwrap().len(), 1);
    assert_eq!(nb.take_embed_actions().len(), 2);
}

#[test]
fn updating_an_unknown_note_fails() {
    let mut nb = notebook();
    let r = nb.upsert_note(Some("nope"), "text");
    assert!(matches!(r, Err(NotebookError::NoteNotFound(_))));
    assert!(nb.take_embed_actions().is_empty());
}

#[test]
fn category_add_is_idempotent() {
    let mut nb = notebook();
    let note = nb.upsert_note(None, "text").unwrap();
    nb.add_category_to_note(note.get_id(), "Work").unwrap();
    let twice = nb.add_category_to_note(note.get_id(), "Work").unwrap();
    let work: Vec<_> = twice
        .get_categories()
        .iter()
        .filter(|c| c.get_label().to_lowercase() == "work")
        .collect();
    assert_eq!(work.len(), 1);
    let stored = nb.get_note_by_id(note.get_id()).unwrap().unwrap();
    assert_eq!(stored.get_categories().len(), 1);
}

#[test]
fn category_lookup_ignores_case_and_trims() {
    let nb = notebook();
    let first = nb.get_or_create_category("Work").unwrap();
    let second = nb.get_or_create_category("work").unwrap();
    assert_eq!(first.get_id(), second.get_id());
    assert_eq!(second.get_label(), "Work");
    let third = nb.get_or_create_category("  WORK  ").unwrap();
    assert_eq!(third.get_id(), first.get_id());
    let other = nb.get_or_create_category("  Home ").unwrap();
    assert_eq!(other.get_label(), "Home");
    assert_ne!(other.get_id(), first.get_id());
    let found = nb.get_category_by_id(first.get_id()).unwrap().unwrap();
    assert_eq!(found.get_label(), "Work");
    assert!(nb.get_category_by_id("unknown").unwrap().is_none());
}

#[test]
fn category_lookup_folds_the_label_before_the_query() {
    let nb = notebook();
    let first = nb.get_or_create_category("éclair").unwrap();
    let second = nb.get_or_create_category("Éclair").unwrap();
    assert_eq!(first.get_id(), second.get_id());
    assert_eq!(second.get_label(), "éclair");
}

#[test]
fn categories_can_be_removed_even_when_unknown() {
    let mut nb = notebook();
    let note = nb.upsert_note(None, "text").unwrap();
    let tagged = nb.add_category_to_note(note.get_id(), "Work").unwrap();
    let work_id = tagged.get_categories()[0].get_id().to_string();
    nb.add_category_to_note(note.get_id(), "Home").unwrap();
    let after = nb.remove_category_from_note(note.get_id(), &work_id).unwrap();
    assert_eq!(after.get_categories().len(), 1);
    assert_eq!(after.get_categories()[0].get_label(), "Home");
    let stale = nb.remove_category_from_note(note.get_id(), "no-such-category").unwrap();
    assert_eq!(stale.get_categories().len(), 1);
    let stored = nb.get_note_by_id(note.get_id()).unwrap().unwrap();
    assert_eq!(stored.get_categories().len(), 1);
    let missing = nb.remove_category_from_note("no-such-note", &work_id);
    assert!(matches!(missing, Err(NotebookError::NoteNotFound(_))));
    let missing = nb.add_category_to_note("no-such-note", "Work");
    assert!(matches!(missing, Err(NotebookError::NoteNotFound(_))));
}

#[test]
fn removing_the_last_category_empties_the_note() {
    let mut nb = notebook();
    let note = nb.upsert_note(None, "text").unwrap();
    let tagged = nb.add_category_to_note(note.get_id(), "Solo").unwrap();
    let id = tagged.get_categories()[0].get_id().to_string();
    let after = nb.remove_category_from_note(note.get_id(), &id).unwrap();
    assert!(after.get_categories().is_empty());
    let stored = nb.get_note_by_id(note.get_id()).unwrap().unwrap();
    assert!(stored.get_categories().is_empty());
}

#[test]
fn deleted_note_is_gone() {
    let mut nb = notebook();
    let keep = nb.upsert_note(None, "keep").unwrap();
    let gone = nb.upsert_note(None, "gone").unwrap();
    nb.add_category_to_note(gone.get_id(), "Work").unwrap();
    nb.take_embed_actions();
    nb.delete_note(gone.get_id()).unwrap();
    assert!(nb.get_note_by_id(gone.get_id()).unwrap().is_none());
    let ids: Vec<String> = nb.get_notes().unwrap().iter().map(|n| n.get_id().to_string()).collect();
    assert_eq!(ids, vec![keep.get_id().to_string()]);
    match &nb.take_embed_actions()[..] {
        [EmbedAction::Delete(ids)] => assert_eq!(ids, &vec![gone.get_id().to_string()]),
        other => panic!("unexpected actions {:?}", other),
    }
}

#[test]
fn delete_all_clears_both_stores() {
    let mut nb = notebook();
    nb.upsert_note(None, "one").unwrap();
    nb.upsert_note(None, "two").unwrap();
    nb.take_embed_actions();
    nb.delete_all_notes().unwrap();
    assert!(nb.get_notes().unwrap().is_empty());
    assert!(matches!(&nb.take_embed_actions()[..], [EmbedAction::Clear]));
}

#[test]
fn notes_list_with_their_categories() {
    let mut nb = notebook();
    let a = nb.upsert_note(None, "a").unwrap();
    let b = nb.upsert_note(None, "b").unwrap();
    nb.add_category_to_note(a.get_id(), "X").unwrap();
    nb.add_category_to_note(a.get_id(), "Y").unwrap();
    let notes = nb.get_notes().unwrap();
    assert_eq!(notes.len(), 2);
    let na = notes.iter().find(|n| n.get_id() == a.get_id()).unwrap();
    let nb_ = notes.iter().find(|n| n.get_id() == b.get_id()).unwrap();
    assert_eq!(na.get_categories().len(), 2);
    assert!(nb_.get_categories().is_empty());
}

#[test]
fn similar_notes_come_from_the_store() {
    let mut nb = notebook();
    let q = nb.upsert_note(None, "query").unwrap();
    let a = nb.upsert_note(None, "near").unwrap();
    let b = nb.upsert_note(None, "middle").unwrap();
    let c = nb.upsert_note(None, "far").unwrap();
    let hit = |id: &str, d: f32| SimilarHit {
        id: id.to_string(),
        text: String::new(),
        distance: Distance::from_bits(d.to_bits()),
    };
    let hits = vec![hit(q.get_id(), 0.0), hit(a.get_id(), 0.005), hit(b.get_id(), 0.02), hit(c.get_id(), 0.5)];
    let r = nb.get_note_similars(&q, &hits, None, None).unwrap();
    assert_eq!(r.len(), 1);
    assert_eq!(r[0].0.get_id(), a.get_id());
    let wide = nb
        .get_note_similars(&q, &hits, Some(2), Some(Distance::from_bits(1.0f32.to_bits())))
        .unwrap();
    let ids: Vec<&str> = wide.iter().map(|p| p.0.get_id()).collect();
    assert_eq!(ids, vec![a.get_id(), b.get_id()]);
    assert!(nb.get_note_similars(&q, &Vec::new(), None, None).unwrap().is_empty());
}

#[test]
fn import_counts_only_note_files() {
    let names = ["a.md", "b.md", "c.md", "d.md", "e.md", "f.txt", "g.png"];
    let contents: Vec<String> = names
        .iter()
        .filter(|n| is_note_file_name(n))
        .map(|n| format!("content of {}", n))
        .collect();
    let mut nb = notebook();
    assert_eq!(nb.import_notes(&contents).unwrap(), 5);
    assert_eq!(nb.get_notes().unwrap().len(), 5);
    match &nb.take_embed_actions()[..] {
        [EmbedAction::Upsert(chunks)] => assert_eq!(chunks.len(), 5),
        other => panic!("unexpected actions {:?}", other),
    }
}

#[test]
fn import_of_a_directory_listing_counts_note_files() {
    let names = ["a.md", "b.md", "c.md", "d.md", "e.md", "f.txt", "g.png"];
    let files: Vec<(String, String)> = names.iter().map(|n| (n.to_string(), format!("text {}", n))).collect();
    let mut nb = notebook();
    assert_eq!(nb.import_note_files(&files).unwrap(), 5);
    let mut texts: Vec<String> = nb.get_notes().unwrap().iter().map(|n| n.get_text().to_string()).collect();
    texts.sort();
    assert_eq!(texts, vec!["text a.md", "text b.md", "text c.md", "text d.md", "text e.md"]);
    assert_eq!(nb.import_note_files(&Vec::new()).unwrap(), 0);
}

#[test]
fn note_file_names() {
    assert!(is_note_file_name("x.md"));
    assert!(!is_note_file_name(".md"));
    assert!(!is_note_file_name("x.MD"));
    assert!(!is_note_file_name("x.mdx"));
    assert!(!is_note_file_name("md"));
}

#[test]
fn export_pairs_names_and_texts() {
    let mut nb = notebook();
    nb.upsert_note(None, "Untitled").unwrap();
    nb.upsert_note(None, "Untitled").unwrap();
    let files = nb.export_notes().unwrap();
    let names: Vec<&str> = files.iter().map(|f| f.0.as_str()).collect();
    assert_eq!(names, vec!["Untitled.md", "Untitled-dupe_1.md"]);
    assert!(files.iter().all(|f| f.1 == "Untitled"));
}

#[test]
fn duplicate_note_id_is_a_persistence_error() {
    let nb = notebook();
    let note = knowling::note::Note::new("same", "x");
    nb.models_store.add_note(&note).unwrap();
    let again = nb.models_store.add_note(&note);
    match again {
        Err(NotebookError::ModelPersistence(message)) => assert!(message.contains("UNIQUE")),
        other => panic!("unexpected result {:?}", other),
    }
}

#[test]
fn update_of_missing_row_is_not_found() {
    let nb = notebook();
    let note = knowling::note::Note::new("ghost", "x");
    let r = nb.models_store.update_note_text(&note);
    assert!(matches!(r, Err(NotebookError::NoteNotFound(_))));
}

#[test]
fn unreadable_database_path_fails() {
    let r = Notebook::new("/nonexistent-dir/sub/db.sqlite");
    assert!(matches!(r, Err(NotebookError::ModelPersistence(_))));
}

#[test]
fn error_descriptions() {
    let cases = [
        (NotebookError::EmbeddingPersistence("e".to_string()), "Persistence error: e"),
        (NotebookError::ModelPersistence("m".to_string()), "Models db error: m"),
        (NotebookError::FileAccess("f".to_string()), "File access error: f"),
        (NotebookError::EmbeddingError("x".to_string()), "Embedding error: x"),
        (NotebookError::NoteNotFound("n".to_string()), "Note not found: n"),
    ];
    for (e, text) in cases.iter() {
        assert_eq!(e.describe(), *text);
    }
}

#[test]
fn documents_have_random_alphanumeric_ids() {
    let d = Document::new("hello");
    assert_eq!(d.get_content(), "hello");
    assert_eq!(d.get_id().len(), 6);
    assert!(d.get_id().chars().all(|c| c.is_ascii_alphanumeric()));
    assert_eq!(d.created(), d.modified());
    assert_eq!(d.text(), "hello");
}

#[test]
fn documents_from_result_columns() {
    let ids = vec!["a".to_string(), "b".to_string()];
    let texts = vec!["ta".to_string(), "tb".to_string()];
    let docs = documents_from_columns(&ids, &texts, &vec![1, 2], &vec![3, 4]);
    assert_eq!(docs.len(), 2);
    assert_eq!(docs[1].id(), "b");
    assert_eq!(docs[1].text(), "tb");
    assert_eq!(docs[1].created(), 2);
    assert_eq!(docs[1].modified(), 4);
    let d = vec![Distance::from_bits(0.5f32.to_bits()), Distance::from_bits(0.25f32.to_bits())];
    let with = documents_with_distances(&ids, &texts, &d, &vec![1, 2], &vec![3, 4]);
    assert_eq!(with[0].0.get_id(), "a");
    assert_eq!(f32::from_bits(with[1].1.to_bits()), 0.25);
}
