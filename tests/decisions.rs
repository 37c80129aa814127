use knowling::error::NotebookError;
use knowling::note::{Category, Note};
use knowling::notebook::{candidate_ids, found_note, tagged_note, untagged_note, update_target, updated_note};
use knowling::repository::{
    category_from_rows, category_key, category_with_id, group_note_rows, id_params,
    note_insert_params, note_with_id, reconcile_statements, settle_category, text_param_list,
    trim_text, update_outcome,
};
use knowling::similar::{Distance, SimilarHit};
use knowling::sqlite::{CategoryRow, NoteRow, SqlParam};

fn texts(params: &[SqlParam]) -> Vec<String> {
    params
        .iter()
        .map(|p| match p {
            SqlParam::Text(s) => s.clone(),
            SqlParam::Integer(i) => format!("#{}", i),
        })
        .collect()
}

fn row(id: &str, text: &str, cat: Option<(&str, &str)>) -> NoteRow {
    NoteRow {
        note_id: id.to_string(),
        content: text.to_string(),
        created: 10,
        modified: 20,
        category_id: cat.map(|c| c.0.to_string()),
        category_label: cat.map(|c| c.1.to_string()),
    }
}

#[test]
fn note_with_id_groups_its_rows() {
    let rows = vec![
        row("a", "first", Some(("c1", "Work"))),
        row("a", "first", Some(("c2", "Home"))),
        row("a", "first", Some(("c1", "Work"))),
        row("b", "second", None),
    ];
    let a = note_with_id(&rows, "a").unwrap();
    assert_eq!(a.get_text(), "first");
    assert_eq!(a.get_created(), 10);
    assert_eq!(a.get_modified(), 20);
    let ids: Vec<&str> = a.get_categories().iter().map(|c| c.get_id()).collect();
    assert_eq!(ids, vec!["c1", "c2"]);
    let b = note_with_id(&rows, "b").unwrap();
    assert!(b.get_categories().is_empty());
    assert!(note_with_id(&rows, "z").is_none());
    assert!(note_with_id(&Vec::new(), "a").is_none());
}

#[test]
fn category_from_first_row() {
    let rows = vec![
        CategoryRow { id: "x".to_string(), label: "Work".to_string() },
        CategoryRow { id: "y".to_string(), label: "work".to_string() },
    ];
    let c = category_from_rows(&rows).unwrap();
    assert_eq!((c.get_id(), c.get_label()), ("x", "Work"));
    assert!(category_from_rows(&Vec::new()).is_none());
}

#[test]
fn settled_category_keeps_stored_casing_or_is_new() {
    let rows = vec![CategoryRow { id: "x".to_string(), label: "Work".to_string() }];
    let (found, is_new) = settle_category(&rows, "work");
    assert!(!is_new);
    assert_eq!((found.get_id(), found.get_label()), ("x", "Work"));
    let (created, is_new) = settle_category(&Vec::new(), "work");
    assert!(is_new);
    assert_eq!(created.get_label(), "work");
    assert_eq!(created.get_id().len(), 36);
}

#[test]
fn batch_lookup_binds_every_id_in_order() {
    let ids = vec!["a".to_string(), "b".to_string()];
    let params = text_param_list(&ids);
    let texts: Vec<String> = params
        .iter()
        .map(|p| match p {
            SqlParam::Text(s) => s.clone(),
            SqlParam::Integer(_) => panic!("unexpected integer"),
        })
        .collect();
    assert_eq!(texts, ids);
}

#[test]
fn update_changing_no_row_is_not_found() {
    let note = Note::new("n", "t");
    assert!(matches!(update_outcome(0, &note), Err(NotebookError::NoteNotFound(_))));
    assert_eq!(update_outcome(1, &note).unwrap().get_id(), "n");
}

#[test]
fn update_keeps_id_categories_and_creation() {
    let mut stored = Note::hydrate("n", "old", Vec::new(), 5, 6);
    stored.add_category(Category::hydrate("c", "Work"));
    let n = updated_note(stored, "new", 99);
    assert_eq!(n.get_id(), "n");
    assert_eq!(n.get_text(), "new");
    assert_eq!(n.get_created(), 5);
    assert_eq!(n.get_modified(), 99);
    assert_eq!(n.get_categories().len(), 1);
}

#[test]
fn tagging_twice_is_a_no_op() {
    let stored = Note::hydrate("n", "t", Vec::new(), 1, 1);
    let (once, due) = tagged_note(stored, Category::hydrate("c", "Work"));
    assert!(due);
    let (twice, due) = tagged_note(once, Category::hydrate("c", "Work"));
    assert!(!due);
    assert_eq!(twice.get_categories().len(), 1);
}

#[test]
fn untagging_keeps_the_other_categories() {
    let mut stored = Note::hydrate("n", "t", Vec::new(), 1, 1);
    stored.add_category(Category::hydrate("a", "A"));
    stored.add_category(Category::hydrate("b", "B"));
    let (n, due) = untagged_note(stored.clone(), Some(Category::hydrate("a", "A")), "a");
    assert!(due);
    assert_eq!(n.get_categories().len(), 1);
    assert_eq!(n.get_categories()[0].get_id(), "b");
    let (n, due) = untagged_note(stored.clone(), Some(Category::hydrate("z", "Z")), "z");
    assert!(!due);
    assert_eq!(n.get_categories().len(), 2);
    let (n, due) = untagged_note(stored, None, "b");
    assert!(due);
    assert_eq!(n.get_categories()[0].get_id(), "a");
}

#[test]
fn rows_of_one_note_merge_wherever_they_stand() {
    let rows = vec![
        row("a", "first", Some(("c1", "Work"))),
        row("b", "second", None),
        row("a", "first", Some(("c2", "Home"))),
        row("b", "second", Some(("c1", "Work"))),
    ];
    let notes = group_note_rows(&rows);
    assert_eq!(notes.len(), 2);
    assert_eq!(notes[0].get_id(), "a");
    assert_eq!(notes[0].get_categories().len(), 2);
    assert_eq!(notes[1].get_id(), "b");
    assert_eq!(notes[1].get_categories().len(), 1);
    assert_eq!(note_with_id(&rows, "a").unwrap().get_categories().len(), 2);
}

#[test]
fn reconcile_deletes_then_inserts_each_category() {
    let mut note = Note::hydrate("n", "t", Vec::new(), 1, 1);
    let only_delete = reconcile_statements(&note);
    assert_eq!(only_delete.len(), 1);
    assert_eq!(only_delete[0].sql, "DELETE FROM note_category WHERE note_id = ?1");
    assert_eq!(texts(&only_delete[0].params), vec!["n"]);
    note.add_category(Category::hydrate("a", "A"));
    note.add_category(Category::hydrate("b", "B"));
    let both = reconcile_statements(&note);
    assert_eq!(both.len(), 2);
    assert_eq!(both[1].sql, "INSERT INTO note_category (note_id, category_id) VALUES (?, ?), (?, ?)");
    assert_eq!(texts(&both[1].params), vec!["n", "a", "n", "b"]);
}

#[test]
fn absent_note_is_not_found() {
    assert!(matches!(found_note(None, "x"), Err(NotebookError::NoteNotFound(_))));
    assert_eq!(found_note(Some(Note::new("x", "t")), "x").unwrap().get_id(), "x");
    assert!(matches!(update_target(None, "x", "new", 5), Err(NotebookError::NoteNotFound(_))));
    let stored = Note::hydrate("x", "old", vec![Category::hydrate("c", "C")], 1, 2);
    let n = update_target(Some(stored), "x", "new", 5).unwrap();
    assert_eq!((n.get_text(), n.get_created(), n.get_modified()), ("new", 1, 5));
    assert_eq!(n.get_categories().len(), 1);
}

#[test]
fn candidate_ids_keep_order() {
    let hit = |id: &str| SimilarHit { id: id.to_string(), text: String::new(), distance: Distance::from_bits(0) };
    assert_eq!(candidate_ids(&vec![hit("b"), hit("a")]), vec!["b".to_string(), "a".to_string()]);
}

#[test]
fn statement_parameters() {
    assert_eq!(texts(&id_params("n1")), vec!["n1"]);
    let note = Note::hydrate("n", "body", Vec::new(), 7, 8);
    assert_eq!(texts(&note_insert_params(&note)), vec!["n", "body", "#7", "#8"]);
}

#[test]
fn lookup_key_is_trimmed_and_lowercase() {
    assert_eq!(category_key("  Work\t"), "work");
    assert_eq!(category_key("ÉCLAIR"), "éclair");
}

#[test]
fn trimming_strips_unicode_white_space() {
    assert_eq!(trim_text("  a b \n"), "a b");
    assert_eq!(trim_text("\u{3000}x\u{a0}"), "x");
    assert_eq!(trim_text(" \t "), "");
    assert_eq!(trim_text(""), "");
}

#[test]
fn category_needs_the_id_asked_for() {
    let rows = vec![CategoryRow { id: "x".to_string(), label: "Work".to_string() }];
    assert_eq!(category_with_id(&rows, "x").unwrap().get_label(), "Work");
    assert!(category_with_id(&rows, "y").is_none());
    assert!(category_with_id(&Vec::new(), "x").is_none());
}
