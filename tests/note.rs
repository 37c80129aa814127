use knowling::note::{Category, Note};

#[test]
fn test_get_id() {
    let note = Note::new("1", "Test Note");
    assert_eq!("1", note.get_id());
}

#[test]
fn test_get_content() {
    let content = "Test Note";
    let note = Note::new("1", content);
    assert_eq!(note.get_text(), content);
}

#[test]
fn new_note_has_no_categories_and_equal_timestamps() {
    let note = Note::new("n", "text");
    assert!(note.get_categories().is_empty());
    assert_eq!(note.get_created(), note.get_modified());
    assert!(note.get_created() > 1_600_000_000);
}

#[test]
fn adding_a_category_twice_keeps_one() {
    let mut note = Note::new("n", "text");
    let work = Category::hydrate("c1", "Work");
    note.add_category(work.clone());
    note.add_category(Category::hydrate("c1", "work"));
    assert_eq!(note.get_categories().len(), 1);
    assert_eq!(note.get_categories()[0].get_label(), "Work");
    assert!(note.has_category(&work));
}

#[test]
fn removing_categories_by_value_and_by_id() {
    let mut note = Note::new("n", "text");
    note.add_category(Category::hydrate("a", "A"));
    note.add_category(Category::hydrate("b", "B"));
    note.add_category(Category::hydrate("c", "C"));
    note.remove_category(Category::hydrate("b", "other label"));
    assert_eq!(note.get_categories().len(), 2);
    assert!(!note.has_category_id("b"));
    note.remove_category_by_id("a");
    assert_eq!(note.get_categories().len(), 1);
    assert_eq!(note.get_categories()[0].get_id(), "c");
    note.remove_category_by_id("missing");
    assert_eq!(note.get_categories().len(), 1);
}

#[test]
fn notes_and_categories_are_equal_by_id() {
    let a = Note::hydrate("x", "one", Vec::new(), 1, 2);
    let b = Note::hydrate("x", "two", Vec::new(), 3, 4);
    assert!(a == b);
    assert!(Category::hydrate("i", "A") == Category::hydrate("i", "B"));
    assert!(Category::hydrate("i", "A") != Category::hydrate("j", "A"));
}

#[test]
fn new_category_gets_a_uuid() {
    let c = Category::new("Work");
    assert_eq!(c.get_label(), "Work");
    assert_eq!(c.get_id().len(), 36);
    assert_ne!(Category::new("Work").get_id(), c.get_id());
}

#[test]
fn text_chunk_mirrors_the_note() {
    let mut note = Note::new("id7", "body");
    note.set_modified(42);
    assert_eq!(note.get_modified(), 42);
    let chunk = note.to_text_chunk();
    assert_eq!(chunk.id, "id7");
    assert_eq!(chunk.text, "body");
}
