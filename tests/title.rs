use knowling::note::Note;
use knowling::title::{decimal_chars, export_dir_name, export_file_names, note_title};

#[test]
fn title_strips_replaces_and_collapses() {
    // the trailing "!!" becomes one '_' that stays
    assert_eq!(note_title("# Hello, World!!"), "Hello_World_");
    assert_eq!(note_title("## My  note\nsecond line"), "My_note");
    assert_eq!(note_title("Windows line\r\nnext"), "Windows_line");
    assert_eq!(note_title("a-b_c 9"), "a-b_c_9");
}

#[test]
fn title_of_empty_or_blank_text() {
    assert_eq!(note_title(""), "");
    assert_eq!(note_title("\nsecond"), "");
    assert_eq!(note_title("#  # "), "");
}

#[test]
fn title_replaces_non_ascii() {
    assert_eq!(note_title("café ünï"), "caf_n_");
}

#[test]
fn long_title_is_cut_in_the_middle() {
    let text: String = (0..120).map(|i| char::from(b'a' + (i % 26) as u8)).collect();
    let title = note_title(&text);
    assert_eq!(title.len(), 103);
    assert_eq!(&title[..50], &text[..50]);
    assert_eq!(&title[50..53], "...");
    assert_eq!(&title[53..], &text[70..]);
    let exact: String = "x".repeat(100);
    assert_eq!(note_title(&exact), exact);
}

#[test]
fn sanitized_title_file_name() {
    let notes = vec![Note::new("1", "# Hello, World!!\nbody")];
    assert_eq!(export_file_names(&notes), vec!["Hello_World_.md".to_string()]);
}

#[test]
fn duplicate_titles_get_their_index() {
    let notes = vec![
        Note::new("1", "Untitled"),
        Note::new("2", "Untitled"),
        Note::new("3", "Other"),
        Note::new("4", "Untitled"),
    ];
    assert_eq!(
        export_file_names(&notes),
        vec![
            "Untitled.md".to_string(),
            "Untitled-dupe_1.md".to_string(),
            "Other.md".to_string(),
            "Untitled-dupe_3.md".to_string(),
        ]
    );
}

#[test]
fn decimal_digits() {
    assert_eq!(decimal_chars(0), vec!['0']);
    assert_eq!(decimal_chars(7), vec!['7']);
    assert_eq!(decimal_chars(1203), vec!['1', '2', '0', '3']);
}

#[test]
fn export_directory_name() {
    assert_eq!(export_dir_name("20240101120000"), "knowling_export_20240101120000");
}
