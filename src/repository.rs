use vstd::prelude::*;

use crate::error::NotebookError;
use crate::note::{holds_id, unique_ids, with_category, Category, CategoryView, Note, NoteView};
use crate::similar::{find_note, find_note_index, lemma_find_note, note_views};
use crate::sqlite::{execute, query_category_rows, query_note_rows, CategoryRow, NoteRow, SqlParam, SqlStatement};
use crate::text::{chars_of, push_char, same_text, string_of};

verus! {

/// A character with the Unicode `White_Space` property, which is what
/// `char::is_whitespace` and `str::trim` go by.
pub open spec fn is_white_space(c: char) -> bool {
    ('\u{9}' <= c && c <= '\u{d}') || c == ' ' || c == '\u{85}' || c == '\u{a0}' || c == '\u{1680}'
        || ('\u{2000}' <= c && c <= '\u{200a}') || c == '\u{2028}' || c == '\u{2029}' || c
        == '\u{202f}' || c == '\u{205f}' || c == '\u{3000}'
}

/// `r` is `s` without its leading and trailing white space.
pub open spec fn is_trim_of(s: Seq<char>, r: Seq<char>) -> bool {
    exists|a: int, b: int|
        0 <= a <= b <= s.len() && r == #[trigger] s.subrange(a, b) && (forall|i: int|
            0 <= i < a ==> is_white_space(s[i])) && (forall|i: int|
            b <= i < s.len() ==> is_white_space(s[i])) && (a < b ==> !is_white_space(s[a])
            && !is_white_space(s[b - 1]))
}

/// Relies on `str::to_lowercase`: the result depends on the characters alone.
pub uninterp spec fn lower_of(s: Seq<char>) -> Seq<char>;

fn white_space(c: char) -> (r: bool)
    ensures
        r == is_white_space(c),
{
    ('\u{9}' <= c && c <= '\u{d}') || c == ' ' || c == '\u{85}' || c == '\u{a0}' || c == '\u{1680}'
        || ('\u{2000}' <= c && c <= '\u{200a}') || c == '\u{2028}' || c == '\u{2029}' || c
        == '\u{202f}' || c == '\u{205f}' || c == '\u{3000}'
}

/// The string without its leading and trailing white space, as `str::trim`
/// gives it.
pub fn trim_text(s: &str) -> (r: String)
    ensures
        is_trim_of(s@, r@),
{
    let chars = chars_of(s);
    let n = chars.len();
    let mut a: usize = 0;
    while a < n && white_space(chars[a])
        invariant
            0 <= a <= n,
            n == chars@.len(),
            forall|i: int| 0 <= i < a ==> is_white_space(chars@[i]),
        decreases n - a,
    {
        a = a + 1;
    }
    let mut b: usize = n;
    while b > a && white_space(chars[b - 1])
        invariant
            a <= b <= n,
            n == chars@.len(),
            forall|i: int| b <= i < n ==> is_white_space(chars@[i]),
        decreases b - a,
    {
        b = b - 1;
    }
    let mut kept: Vec<char> = Vec::new();
    let mut i: usize = a;
    while i < b
        invariant
            a <= i <= b <= n,
            n == chars@.len(),
            kept@ == chars@.subrange(a as int, i as int),
        decreases b - i,
    {
        kept.push(chars[i]);
        assert(chars@.subrange(a as int, i + 1) =~= chars@.subrange(a as int, i as int).push(chars@[i as int]));
        i = i + 1;
    }
    let r = string_of(&kept);
    assert(r@ == s@.subrange(a as int, b as int));
    r
}

/// Relies on `str::to_lowercase`: the lowercase form of the string.
#[verifier::external_body]
fn lowercase(s: &str) -> (r: String)
    ensures
        r@ == lower_of(s@),
{
    s.to_lowercase()
}

/// The mathematical value of a joined row: the note's columns, and the
/// category when both its columns are present.
pub ghost struct RowView {
    pub note_id: Seq<char>,
    pub content: Seq<char>,
    pub created: i64,
    pub modified: i64,
    pub category: Option<CategoryView>,
}

pub open spec fn row_view(r: NoteRow) -> RowView {
    RowView {
        note_id: r.note_id@,
        content: r.content@,
        created: r.created,
        modified: r.modified,
        category: if r.category_id is Some && r.category_label is Some {
            Some(CategoryView { id: r.category_id->0@, label: r.category_label->0@ })
        } else {
            None
        },
    }
}

pub open spec fn row_views(rows: Seq<NoteRow>) -> Seq<RowView> {
    rows.map_values(|r: NoteRow| row_view(r))
}

pub open spec fn with_row_category(cats: Seq<CategoryView>, r: RowView) -> Seq<CategoryView> {
    match r.category {
        Some(c) => with_category(cats, c),
        None => cats,
    }
}

/// The index of the last note with this id, or -1 when there is none.
pub open spec fn id_index(notes: Seq<NoteView>, id: Seq<char>) -> int
    decreases notes.len(),
{
    if notes.len() == 0 {
        -1
    } else if notes.last().id == id {
        notes.len() - 1
    } else {
        id_index(notes.drop_last(), id)
    }
}

/// The notes that joined rows describe, in order of first appearance: the
/// rows with one note id make one note, wherever they stand, whose
/// categories are those of its rows, each id once.
pub open spec fn group_rows(rows: Seq<RowView>) -> Seq<NoteView>
    decreases rows.len(),
{
    if rows.len() == 0 {
        Seq::empty()
    } else {
        let prev = group_rows(rows.drop_last());
        let r = rows.last();
        let k = id_index(prev, r.note_id);
        if k >= 0 {
            prev.update(k, NoteView { categories: with_row_category(prev[k].categories, r), ..prev[k] })
        } else {
            prev.push(
                NoteView {
                    id: r.note_id,
                    text: r.content,
                    categories: with_row_category(Seq::empty(), r),
                    created: r.created,
                    modified: r.modified,
                },
            )
        }
    }
}

pub proof fn lemma_id_index(notes: Seq<NoteView>, id: Seq<char>)
    ensures
        -1 <= id_index(notes, id) < notes.len(),
        id_index(notes, id) >= 0 ==> notes[id_index(notes, id)].id == id,
        id_index(notes, id) == -1 ==> forall|k: int| 0 <= k < notes.len() ==> #[trigger] notes[k].id != id,
    decreases notes.len(),
{
    if notes.len() > 0 {
        lemma_id_index(notes.drop_last(), id);
        if notes.last().id != id {
            assert forall|k: int| 0 <= k < notes.len() && id_index(notes, id) == -1 implies #[trigger] notes[k].id != id by {
                if k < notes.len() - 1 {
                    assert(notes.drop_last()[k] == notes[k]);
                }
            }
        }
    }
}

proof fn lemma_with_row_category_keeps(cats: Seq<CategoryView>, r: RowView, id: Seq<char>)
    requires
        holds_id(cats, id),
    ensures
        holds_id(with_row_category(cats, r), id),
{
    let k = choose|k: int| 0 <= k < cats.len() && cats[k].id == id;
    if let Some(c) = r.category {
        if !holds_id(cats, c.id) {
            assert(cats.push(c)[k].id == id);
        }
    }
}

/// Grouping gives one note per note id of the rows, each note holding the
/// categories of all the rows with its id.
pub proof fn lemma_group_rows(rows: Seq<RowView>)
    ensures
        forall|a: int, b: int| 0 <= a < b < group_rows(rows).len() ==> (#[trigger] group_rows(rows)[a]).id != (#[trigger] group_rows(rows)[b]).id,
        forall|k: int| 0 <= k < group_rows(rows).len() ==> exists|j: int| 0 <= j < rows.len() && (#[trigger] rows[j]).note_id == (#[trigger] group_rows(rows)[k]).id,
        forall|j: int| 0 <= j < rows.len() ==> {
            let k = id_index(group_rows(rows), (#[trigger] rows[j]).note_id);
            &&& 0 <= k
            &&& rows[j].category matches Some(c) ==> holds_id(group_rows(rows)[k].categories, c.id)
        },
    decreases rows.len(),
{
    if rows.len() > 0 {
        let d = rows.drop_last();
        lemma_group_rows(d);
        let prev = group_rows(d);
        let r = rows.last();
        let g = group_rows(rows);
        lemma_id_index(prev, r.note_id);
        let k = id_index(prev, r.note_id);
        assert(g.len() >= prev.len());
        assert forall|x: int| 0 <= x < prev.len() implies (#[trigger] g[x]).id == prev[x].id by {}
        assert forall|a: int, b: int| 0 <= a < b < g.len() implies (#[trigger] g[a]).id != (#[trigger] g[b]).id by {
            if b < prev.len() {
                assert(g[a].id == prev[a].id && g[b].id == prev[b].id);
            } else {
                assert(g[a].id == prev[a].id);
            }
        }
        assert forall|x: int| 0 <= x < g.len() implies exists|j: int| 0 <= j < rows.len() && (#[trigger] rows[j]).note_id == (#[trigger] g[x]).id by {
            if x < prev.len() {
                let j = choose|j: int| 0 <= j < d.len() && (#[trigger] d[j]).note_id == prev[x].id;
                assert(rows[j] == d[j]);
                assert(rows[j].note_id == g[x].id);
            } else {
                assert(rows[rows.len() - 1].note_id == g[x].id);
            }
        }
        lemma_id_index(g, r.note_id);
        assert forall|j: int| 0 <= j < rows.len() implies {
            let m = id_index(g, (#[trigger] rows[j]).note_id);
            &&& 0 <= m
            &&& rows[j].category matches Some(c) ==> holds_id(g[m].categories, c.id)
        } by {
            let id = rows[j].note_id;
            lemma_id_index(g, id);
            lemma_id_index(prev, id);
            if j < d.len() {
                assert(rows[j] == d[j]);
                let m0 = id_index(prev, id);
                assert(0 <= m0);
                assert(g[m0].id == id);
                let m = id_index(g, id);
                if m != m0 {
                    assert(g[m].id == id);
                }
                assert(m == m0);
                if let Some(c) = rows[j].category {
                    if k == m0 {
                        lemma_with_row_category_keeps(prev[m0].categories, r, c.id);
                    }
                }
            } else {
                assert(rows[j] == r);
                let m = id_index(g, id);
                if k >= 0 {
                    assert(g[k].id == id);
                    if m == -1 {
                        assert(g[k].id != id);
                    }
                    assert(m >= 0);
                    if m != k {
                        assert(g[m].id == id);
                    }
                } else {
                    assert(g[prev.len() as int].id == id);
                    if m == -1 {
                        assert(g[prev.len() as int].id != id);
                    }
                    assert(m >= 0);
                    if m != prev.len() as int {
                        assert(g[m].id == prev[m].id);
                        assert(prev[m].id != id);
                    }
                }
                if let Some(c) = r.category {
                    let cats = if k >= 0 { prev[k].categories } else { Seq::<CategoryView>::empty() };
                    if holds_id(cats, c.id) {
                    } else {
                        assert(cats.push(c)[cats.len() as int].id == c.id);
                    }
                }
            }
        }
    }
}

/// The join rows that the store holds for a note: one row per category, or
/// one row without a category when it has none.
pub open spec fn rows_of(n: NoteView) -> Seq<RowView> {
    if n.categories.len() == 0 {
        seq![RowView { note_id: n.id, content: n.text, created: n.created, modified: n.modified, category: None }]
    } else {
        n.categories.map_values(
            |c: CategoryView|
                RowView { note_id: n.id, content: n.text, created: n.created, modified: n.modified, category: Some(c) },
        )
    }
}

proof fn lemma_group_prefix(n: NoteView, k: int)
    requires
        unique_ids(n.categories),
        1 <= k <= n.categories.len(),
    ensures
        group_rows(rows_of(n).take(k)) == seq![NoteView { categories: n.categories.take(k), ..n }],
    decreases k,
{
    let rows = rows_of(n).take(k);
    assert(rows.drop_last() =~= rows_of(n).take(k - 1));
    if k == 1 {
        assert(rows_of(n).take(0) =~= Seq::<RowView>::empty());
        assert(group_rows(rows.drop_last()) == Seq::<NoteView>::empty());
        let c0 = n.categories[0];
        assert(rows.last() == RowView {
            note_id: n.id,
            content: n.text,
            created: n.created,
            modified: n.modified,
            category: Some(c0),
        });
        assert(!holds_id(Seq::<CategoryView>::empty(), c0.id));
        assert(with_category(Seq::empty(), c0) =~= n.categories.take(1));
        let want = NoteView { categories: n.categories.take(k), ..n };
        assert(group_rows(rows) == Seq::<NoteView>::empty().push(want));
        assert(group_rows(rows) =~= seq![want]);
    } else {
        lemma_group_prefix(n, k - 1);
        let first = NoteView { categories: n.categories.take(k - 1), ..n };
        assert(seq![first].drop_last() =~= Seq::<NoteView>::empty());
        assert(id_index(seq![first], n.id) == 0);
        let before = n.categories.take(k - 1);
        let c = n.categories[k - 1];
        if holds_id(before, c.id) {
            let j = choose|j: int| 0 <= j < before.len() && before[j].id == c.id;
            assert(n.categories[j].id == n.categories[k - 1].id);
        }
        assert(before.push(c) =~= n.categories.take(k));
        assert(group_rows(rows) =~= seq![NoteView { categories: n.categories.take(k), ..n }]);
    }
}

/// Reading back the join rows that the store holds for a note rebuilds that
/// very note: its id, text, timestamps and categories, in order.
pub proof fn lemma_rows_round_trip(n: NoteView)
    requires
        unique_ids(n.categories),
    ensures
        group_rows(rows_of(n)) == seq![n],
{
    if n.categories.len() == 0 {
        let rows = rows_of(n);
        assert(rows.drop_last() =~= Seq::<RowView>::empty());
        assert(group_rows(rows.drop_last()) == Seq::<NoteView>::empty());
        assert(n.categories =~= Seq::<CategoryView>::empty());
        assert(group_rows(rows) == Seq::<NoteView>::empty().push(n));
        assert(group_rows(rows) =~= seq![n]);
    } else {
        lemma_group_prefix(n, n.categories.len() as int);
        assert(rows_of(n).take(n.categories.len() as int) =~= rows_of(n));
        assert(n.categories.take(n.categories.len() as int) =~= n.categories);
    }
}

/// `notes` are the notes that some join rows describe (see [`group_rows`]).
pub open spec fn listed(notes: Seq<Note>) -> bool {
    exists|rows: Seq<NoteRow>| note_views(notes) == #[trigger] group_rows(row_views(rows))
}

/// No two of the notes share an id.
pub open spec fn distinct_ids(notes: Seq<Note>) -> bool {
    forall|a: int, b: int| 0 <= a < b < notes.len() ==> (#[trigger] notes[a]).id@ != (#[trigger] notes[b]).id@
}

pub open spec fn all_wf(notes: Seq<Note>) -> bool {
    forall|k: int| 0 <= k < notes.len() ==> (#[trigger] notes[k]).wf()
}

fn add_row_category(note: &mut Note, row: &NoteRow)
    requires
        old(note).wf(),
    ensures
        final(note).wf(),
        final(note)@ == (NoteView { categories: with_row_category(old(note)@.categories, row_view(*row)), ..old(note)@ }),
{
    match (&row.category_id, &row.category_label) {
        (Some(id), Some(label)) => {
            note.add_category(Category::hydrate(id.as_str(), label.as_str()));
        },
        _ => {},
    }
}

/// The index of the last note with this id (see [`id_index`]).
fn id_position(notes: &Vec<Note>, id: &str) -> (r: Option<usize>)
    ensures
        match r {
            Some(k) => k as int == id_index(note_views(notes@), id@),
            None => id_index(note_views(notes@), id@) == -1,
        },
{
    let ghost all = note_views(notes@);
    let mut k: usize = notes.len();
    assert(all.take(k as int) =~= all);
    while k > 0
        invariant
            0 <= k <= notes@.len(),
            all == note_views(notes@),
            id_index(all, id@) == id_index(all.take(k as int), id@),
        decreases k,
    {
        assert(all.take(k as int).drop_last() =~= all.take(k - 1));
        if same_text(notes[k - 1].id.as_str(), id) {
            return Some(k - 1);
        }
        k = k - 1;
    }
    None
}

/// Builds the notes that joined rows describe (see [`group_rows`]): one per
/// note id, with the categories of all its rows.
pub fn group_note_rows(rows: &Vec<NoteRow>) -> (r: Vec<Note>)
    ensures
        note_views(r@) == group_rows(row_views(rows@)),
        all_wf(r@),
        distinct_ids(r@),
{
    let mut notes: Vec<Note> = Vec::new();
    let mut i: usize = 0;
    while i < rows.len()
        invariant
            0 <= i <= rows@.len(),
            note_views(notes@) == group_rows(row_views(rows@).take(i as int)),
            all_wf(notes@),
        decreases rows@.len() - i,
    {
        let row = &rows[i];
        assert(row_views(rows@).take(i + 1).drop_last() =~= row_views(rows@).take(i as int));
        assert(row_views(rows@).take(i + 1).last() == row_view(*row));
        let ghost prev = note_views(notes@);
        let ghost before = notes@;
        proof {
            lemma_id_index(prev, row.note_id@);
        }
        match id_position(&notes, row.note_id.as_str()) {
            Some(k) => {
                let mut note = notes[k].copy();
                assert(note.wf());
                add_row_category(&mut note, row);
                notes.set(k, note);
                assert(note_views(notes@) =~= prev.update(
                    k as int,
                    NoteView {
                        categories: with_row_category(prev[k as int].categories, row_view(*row)),
                        ..prev[k as int]
                    },
                ));
                assert forall|x: int| 0 <= x < notes@.len() implies (#[trigger] notes@[x]).wf() by {
                    if x != k {
                        assert(notes@[x] == before[x]);
                    }
                }
            },
            None => {
                let mut note = Note::hydrate(
                    row.note_id.as_str(),
                    row.content.as_str(),
                    Vec::new(),
                    row.created,
                    row.modified,
                );
                assert(note@.categories =~= Seq::<CategoryView>::empty());
                add_row_category(&mut note, row);
                notes.push(note);
                assert(note_views(notes@) =~= prev.push(
                    NoteView {
                        id: row.note_id@,
                        text: row.content@,
                        categories: with_row_category(Seq::empty(), row_view(*row)),
                        created: row.created,
                        modified: row.modified,
                    },
                ));
            },
        }
        i = i + 1;
    }
    assert(row_views(rows@).take(rows@.len() as int) =~= row_views(rows@));
    proof {
        lemma_group_rows(row_views(rows@));
        assert forall|a: int, b: int| 0 <= a < b < notes@.len() implies (#[trigger] notes@[a]).id@ != (#[trigger] notes@[b]).id@ by {
            assert(note_views(notes@)[a].id == notes@[a].id@);
            assert(note_views(notes@)[b].id == notes@[b].id@);
        }
    }
    notes
}

/// `n` copies of `unit` separated by `", "`.
pub open spec fn separated(unit: Seq<char>, n: nat) -> Seq<char>
    decreases n,
{
    if n == 0 {
        Seq::empty()
    } else if n == 1 {
        unit
    } else {
        separated(unit, (n - 1) as nat) + seq![',', ' '] + unit
    }
}

fn append_chars(s: &mut String, chars: &Vec<char>)
    ensures
        final(s)@ == old(s)@ + chars@,
{
    let ghost start = s@;
    let mut i: usize = 0;
    while i < chars.len()
        invariant
            0 <= i <= chars@.len(),
            s@ == start + chars@.take(i as int),
        decreases chars@.len() - i,
    {
        push_char(s, chars[i]);
        assert(chars@.take(i + 1) =~= chars@.take(i as int).push(chars@[i as int]));
        assert(start + chars@.take(i + 1) =~= (start + chars@.take(i as int)).push(chars@[i as int]));
        i = i + 1;
    }
    assert(chars@.take(chars@.len() as int) =~= chars@);
}

/// Appends `n` copies of `unit` separated by `", "`.
pub fn append_separated(s: &mut String, unit: &Vec<char>, n: usize)
    ensures
        final(s)@ == old(s)@ + separated(unit@, n as nat),
{
    let ghost start = s@;
    let mut comma: Vec<char> = Vec::new();
    comma.push(',');
    comma.push(' ');
    let mut i: usize = 0;
    while i < n
        invariant
            0 <= i <= n,
            comma@ == seq![',', ' '],
            s@ == start + separated(unit@, i as nat),
        decreases n - i,
    {
        if i > 0 {
            append_chars(s, &comma);
        }
        append_chars(s, unit);
        assert(start + separated(unit@, (i + 1) as nat) =~= s@);
        i = i + 1;
    }
}

/// The statement that inserts `n` note-category associations.
pub fn insert_associations_sql(n: usize) -> (r: String)
    ensures
        r@ == "INSERT INTO note_category (note_id, category_id) VALUES "@ + separated(
            seq!['(', '?', ',', ' ', '?', ')'],
            n as nat,
        ),
{
    let mut sql = "INSERT INTO note_category (note_id, category_id) VALUES ".to_string();
    let mut unit: Vec<char> = Vec::new();
    unit.push('(');
    unit.push('?');
    unit.push(',');
    unit.push(' ');
    unit.push('?');
    unit.push(')');
    assert(unit@ =~= seq!['(', '?', ',', ' ', '?', ')']);
    append_separated(&mut sql, &unit, n);
    sql
}

/// The parameters of the association inserts for these category ids: the
/// note's id and the category's id, for each category in order.
pub open spec fn association_params(note_id: Seq<char>, cats: Seq<CategoryView>) -> Seq<Seq<char>>
    decreases cats.len(),
{
    if cats.len() == 0 {
        Seq::empty()
    } else {
        association_params(note_id, cats.drop_last()).push(note_id).push(cats.last().id)
    }
}

pub open spec fn text_params(params: Seq<SqlParam>) -> Option<Seq<Seq<char>>>
    decreases params.len(),
{
    if params.len() == 0 {
        Some(Seq::empty())
    } else {
        match (text_params(params.drop_last()), params.last()) {
            (Some(rest), SqlParam::Text(s)) => Some(rest.push(s@)),
            _ => None,
        }
    }
}

/// The parameters binding a note to each of its categories.
pub fn note_association_params(note: &Note) -> (r: Vec<SqlParam>)
    ensures
        text_params(r@) == Some(association_params(note@.id, note@.categories)),
{
    let ghost cats = note@.categories;
    let mut params: Vec<SqlParam> = Vec::new();
    let mut i: usize = 0;
    while i < note.categories.len()
        invariant
            0 <= i <= cats.len(),
            cats == note@.categories,
            text_params(params@) == Some(association_params(note@.id, cats.take(i as int))),
        decreases cats.len() - i,
    {
        assert(cats.take(i + 1).drop_last() =~= cats.take(i as int));
        let ghost p0 = params@;
        params.push(SqlParam::Text(note.id.clone()));
        assert(params@.drop_last() =~= p0);
        let ghost p1 = params@;
        params.push(SqlParam::Text(note.categories[i].id.clone()));
        assert(params@.drop_last() =~= p1);
        assert(note.categories@[i as int].id@ == cats[i as int].id);
        assert(text_params(p1) == Some(association_params(note@.id, cats.take(i as int)).push(note@.id)));
        assert(cats.take(i + 1).last() == cats[i as int]);
        assert(text_params(params@) == Some(association_params(note@.id, cats.take(i as int)).push(note@.id).push(cats[i as int].id)));
        i = i + 1;
    }
    assert(cats.take(cats.len() as int) =~= cats);
    params
}

/// The value of a stored category row.
pub open spec fn category_row_view(r: CategoryRow) -> CategoryView {
    CategoryView { id: r.id@, label: r.label@ }
}

/// The note with this id among those that joined rows describe, or `None`.
pub fn note_with_id(rows: &Vec<NoteRow>, id: &str) -> (r: Option<Note>)
    ensures
        match r {
            Some(n) => find_note(group_rows(row_views(rows@)), id@) == Some(n@) && n.wf() && n@.id == id@,
            None => find_note(group_rows(row_views(rows@)), id@) is None,
        },
{
    let notes = group_note_rows(rows);
    proof {
        lemma_find_note(note_views(notes@), id@);
    }
    match find_note_index(&notes, id) {
        Some(k) => {
            assert(notes@[k as int].wf());
            Some(notes[k].copy())
        },
        None => None,
    }
}

/// The category that the first of the rows holds, or `None` when there are none.
pub fn category_from_rows(rows: &Vec<CategoryRow>) -> (r: Option<Category>)
    ensures
        rows@.len() == 0 <==> r is None,
        r matches Some(c) ==> c@ == category_row_view(rows@[0]),
{
    if rows.len() > 0 {
        Some(Category::hydrate(rows[0].id.as_str(), rows[0].label.as_str()))
    } else {
        None
    }
}

/// `found` is what the rows give for the id: the first row's category when
/// it has that id, else `None`.
pub open spec fn category_for_id(rows: Seq<CategoryRow>, id: Seq<char>, found: Option<Category>) -> bool {
    if rows.len() > 0 && rows[0].id@ == id {
        found matches Some(c) && c@ == category_row_view(rows[0])
    } else {
        found is None
    }
}

/// The category of the first row when it has the id asked for, else `None`.
pub fn category_with_id(rows: &Vec<CategoryRow>, id: &str) -> (r: Option<Category>)
    ensures
        category_for_id(rows@, id@, r),
{
    if rows.len() > 0 && same_text(rows[0].id.as_str(), id) {
        category_from_rows(rows)
    } else {
        None
    }
}

/// What a case-insensitive lookup settles on: the first stored category it
/// found, kept as stored; or, when it found none, a new category with the
/// label `label`.
pub open spec fn settles(found: Seq<CategoryRow>, label: Seq<char>, c: CategoryView) -> bool {
    if found.len() > 0 {
        c == category_row_view(found[0])
    } else {
        c.label == label
    }
}

/// `c` is what some lookup for the trimmed `label` settles on.
pub open spec fn settled_for(label: Seq<char>, c: CategoryView) -> bool {
    exists|t: Seq<char>, found: Seq<CategoryRow>| is_trim_of(label, t) && #[trigger] settles(found, t, c)
}

/// Decides the category for `label` from the rows that a case-insensitive
/// lookup returned; the flag says that the category is new and must be stored.
pub fn settle_category(found: &Vec<CategoryRow>, label: &str) -> (r: (Category, bool))
    ensures
        settles(found@, label@, r.0@),
        r.1 == (found@.len() == 0),
        r.1 ==> r.0.id@.len() == 36,
{
    match category_from_rows(found) {
        Some(c) => (c, false),
        None => (Category::new(label), true),
    }
}

/// The parameters binding each id of `ids`, in order.
pub fn text_param_list(ids: &Vec<String>) -> (r: Vec<SqlParam>)
    ensures
        text_params(r@) == Some(ids@.map_values(|s: String| s@)),
{
    let ghost want = ids@.map_values(|s: String| s@);
    let mut params: Vec<SqlParam> = Vec::new();
    let mut i: usize = 0;
    while i < ids.len()
        invariant
            0 <= i <= ids@.len(),
            want == ids@.map_values(|s: String| s@),
            text_params(params@) == Some(want.take(i as int)),
        decreases ids@.len() - i,
    {
        let ghost p0 = params@;
        params.push(SqlParam::Text(ids[i].clone()));
        assert(params@.drop_last() =~= p0);
        assert(want.take(i + 1) =~= want.take(i as int).push(want[i as int]));
        i = i + 1;
    }
    assert(want.take(ids@.len() as int) =~= want);
    params
}

/// The outcome of storing `note`'s text, given how many rows the update
/// changed: `NoteNotFound` exactly when it changed none.
pub fn update_outcome(changed: usize, note: &Note) -> (r: Result<Note, NotebookError>)
    ensures
        changed == 0 <==> r is Err,
        r matches Err(e) ==> e is NoteNotFound,
        r matches Ok(n) ==> n@ == note@,
{
    if changed == 0 {
        Err(NotebookError::NoteNotFound(note.id.clone()))
    } else {
        Ok(note.copy())
    }
}

/// The parameter is the text `s`.
pub open spec fn is_text(p: SqlParam, s: Seq<char>) -> bool {
    match p {
        SqlParam::Text(t) => t@ == s,
        SqlParam::Integer(_) => false,
    }
}

/// The parameter is the integer `i`.
pub open spec fn is_integer(p: SqlParam, i: i64) -> bool {
    match p {
        SqlParam::Integer(j) => j == i,
        SqlParam::Text(_) => false,
    }
}

/// The one parameter of a lookup or removal by id.
pub fn id_params(id: &str) -> (r: Vec<SqlParam>)
    ensures
        text_params(r@) == Some(seq![id@]),
{
    let text = id.to_string();
    assert(text@ == id@);
    let mut params: Vec<SqlParam> = Vec::new();
    params.push(SqlParam::Text(text));
    assert(params@.drop_last() =~= Seq::<SqlParam>::empty());
    assert(text_params(params@.drop_last()) == Some(Seq::<Seq<char>>::empty()));
    assert(seq![id@] =~= Seq::<Seq<char>>::empty().push(id@));
    params
}

/// The parameters of the note row insert: id, text, creation and
/// modification time.
pub fn note_insert_params(note: &Note) -> (r: Vec<SqlParam>)
    ensures
        r@.len() == 4,
        is_text(r@[0], note@.id),
        is_text(r@[1], note@.text),
        is_integer(r@[2], note@.created),
        is_integer(r@[3], note@.modified),
{
    let mut params: Vec<SqlParam> = Vec::new();
    params.push(SqlParam::Text(note.id.clone()));
    params.push(SqlParam::Text(note.text.clone()));
    params.push(SqlParam::Integer(note.created));
    params.push(SqlParam::Integer(note.modified));
    params
}

/// The parameters of the note text update: text, modification time, id.
pub fn note_update_params(note: &Note) -> (r: Vec<SqlParam>)
    ensures
        r@.len() == 3,
        is_text(r@[0], note@.text),
        is_integer(r@[1], note@.modified),
        is_text(r@[2], note@.id),
{
    let mut params: Vec<SqlParam> = Vec::new();
    params.push(SqlParam::Text(note.text.clone()));
    params.push(SqlParam::Integer(note.modified));
    params.push(SqlParam::Text(note.id.clone()));
    params
}

/// The parameters of the category insert: id and label.
pub fn category_insert_params(category: &Category) -> (r: Vec<SqlParam>)
    ensures
        r@.len() == 2,
        is_text(r@[0], category.id@),
        is_text(r@[1], category.label@),
{
    let mut params: Vec<SqlParam> = Vec::new();
    params.push(SqlParam::Text(category.id.clone()));
    params.push(SqlParam::Text(category.label.clone()));
    params
}

/// The key a category lookup compares labels with: the label without its
/// leading and trailing white space, in lowercase.
pub fn category_key(label: &str) -> (r: String)
    ensures
        exists|t: Seq<char>| is_trim_of(label@, t) && r@ == #[trigger] lower_of(t),
{
    let trimmed = trim_text(label);
    let key = lowercase(trimmed.as_str());
    assert(is_trim_of(label@, trimmed@) && key@ == lower_of(trimmed@));
    key
}

/// The statements that replace a note's associations: first the removal of
/// all its associations, then, only when it holds categories, one insert of
/// a row per category.
pub fn reconcile_statements(note: &Note) -> (r: Vec<SqlStatement>)
    ensures
        r@.len() == if note@.categories.len() == 0 { 1int } else { 2int },
        r@[0].sql@ == "DELETE FROM note_category WHERE note_id = ?1"@,
        text_params(r@[0].params@) == Some(seq![note@.id]),
        note@.categories.len() > 0 ==> r@[1].sql@ == "INSERT INTO note_category (note_id, category_id) VALUES "@
            + separated(seq!['(', '?', ',', ' ', '?', ')'], note@.categories.len()),
        note@.categories.len() > 0 ==> text_params(r@[1].params@) == Some(association_params(note@.id, note@.categories)),
{
    let mut out: Vec<SqlStatement> = Vec::new();
    out.push(SqlStatement {
        sql: "DELETE FROM note_category WHERE note_id = ?1".to_string(),
        params: id_params(note.id.as_str()),
    });
    if note.categories.len() > 0 {
        out.push(SqlStatement {
            sql: insert_associations_sql(note.categories.len()),
            params: note_association_params(note),
        });
    }
    out
}

/// The relational store: notes, categories and the association between them,
/// in an SQLite database.
pub struct NotebookRepository {
    conn: rusqlite::Connection,
}

impl NotebookRepository {
    pub fn new(conn: rusqlite::Connection) -> (r: NotebookRepository) {
        NotebookRepository { conn }
    }

    fn run(&self, sql: &str, params: &Vec<SqlParam>) -> (r: Result<usize, NotebookError>)
        ensures
            r matches Err(e) ==> e is ModelPersistence,
    {
        match execute(&self.conn, sql, params) {
            Ok(n) => Ok(n),
            Err(e) => Err(NotebookError::from_sql(&e)),
        }
    }

    fn note_rows(&self, sql: &str, params: &Vec<SqlParam>) -> (r: Result<Vec<NoteRow>, NotebookError>)
        ensures
            r matches Err(e) ==> e is ModelPersistence,
    {
        match query_note_rows(&self.conn, sql, params) {
            Ok(rows) => Ok(rows),
            Err(e) => Err(NotebookError::from_sql(&e)),
        }
    }

    fn category_rows(&self, sql: &str, param: &str) -> (r: Result<Vec<CategoryRow>, NotebookError>)
        ensures
            r matches Err(e) ==> e is ModelPersistence,
    {
        match query_category_rows(&self.conn, sql, param) {
            Ok(rows) => Ok(rows),
            Err(e) => Err(NotebookError::from_sql(&e)),
        }
    }

    /// Creates the three tables, where they do not exist yet.
    pub fn init_db(&self) -> (r: Result<(), NotebookError>)
        ensures
            r matches Err(e) ==> e is ModelPersistence,
    {
        let none: Vec<SqlParam> = Vec::new();
        self.run(
            "CREATE TABLE IF NOT EXISTS categories (
            id CHAR(36) PRIMARY KEY,
            label  NVARCHAR(128) NOT NULL)",
            &none,
        )?;
        self.run(
            "CREATE TABLE IF NOT EXISTS notes (
            id CHAR(36) PRIMARY KEY,
            content TEXT,
            created INTEGER NOT NULL,
            modified INTEGER NOT NULL)",
            &none,
        )?;
        self.run(
            "CREATE TABLE IF NOT EXISTS note_category (
            note_id CHAR(36),
            category_id CHAR(36),
            PRIMARY KEY (note_id, category_id),
            FOREIGN KEY (note_id) REFERENCES notes (id) ON DELETE CASCADE,
            FOREIGN KEY (category_id) REFERENCES categories (id)
        )",
            &none,
        )?;
        Ok(())
    }

    /// The note with this id and its categories, or `None` when no note has it:
    /// [`note_with_id`] of the rows that the store returns for the id.
    pub fn get_note(&self, id: &str) -> (r: Result<Option<Note>, NotebookError>)
        ensures
            r matches Ok(Some(n)) ==> n@.id == id@ && n.wf(),
            r matches Ok(found) ==> exists|rows: Seq<NoteRow>|
                #[trigger] find_note(group_rows(row_views(rows)), id@) == match found {
                    Some(n) => Some(n@),
                    None => None::<NoteView>,
                },
            r matches Err(e) ==> e is ModelPersistence,
    {
        let params = id_params(id);
        let rows = self.note_rows(
            "SELECT n.id, n.content, n.created, n.modified, c.id, c.label
        FROM notes n
        LEFT JOIN note_category nc ON n.id = nc.note_id
        LEFT JOIN categories c ON nc.category_id = c.id
        WHERE n.id = ?1",
            &params,
        )?;
        let found = note_with_id(&rows, id);
        assert(find_note(group_rows(row_views(rows@)), id@) == match found {
            Some(n) => Some(n@),
            None => None::<NoteView>,
        });
        Ok(found)
    }

    /// The notes whose id is one of `ids`, with their categories; ids that no
    /// note has are left out.
    pub fn get_notes_by_ids(&self, ids: &Vec<String>) -> (r: Result<Vec<Note>, NotebookError>)
        ensures
            r matches Ok(notes) ==> all_wf(notes@),
            r matches Ok(notes) ==> listed(notes@) && distinct_ids(notes@),
            ids@.len() == 0 ==> (r matches Ok(notes) && notes@.len() == 0),
            r matches Err(e) ==> e is ModelPersistence,
    {
        if ids.len() == 0 {
            let none: Vec<Note> = Vec::new();
            assert(note_views(none@) =~= group_rows(row_views(Seq::<NoteRow>::empty())));
            assert(listed(none@));
            assert(distinct_ids(none@));
            return Ok(none);
        }
        let params = text_param_list(ids);
        let mut sql = "SELECT n.id, n.content, n.created, n.modified, c.id, c.label
        FROM notes n
        LEFT JOIN note_category nc ON n.id = nc.note_id
        LEFT JOIN categories c ON nc.category_id = c.id
        WHERE n.id IN (".to_string();
        let mut unit: Vec<char> = Vec::new();
        unit.push('?');
        append_separated(&mut sql, &unit, ids.len());
        sql.append(")");
        let rows = self.note_rows(sql.as_str(), &params)?;
        let notes = group_note_rows(&rows);
        assert(listed(notes@));
        Ok(notes)
    }

    /// Every note, with its categories.
    pub fn get_notes(&self) -> (r: Result<Vec<Note>, NotebookError>)
        ensures
            r matches Ok(notes) ==> all_wf(notes@),
            r matches Ok(notes) ==> listed(notes@) && distinct_ids(notes@),
            r matches Err(e) ==> e is ModelPersistence,
    {
        let none: Vec<SqlParam> = Vec::new();
        let rows = self.note_rows(
            "SELECT n.id, n.content, n.created, n.modified, c.id, c.label
        FROM notes n
        LEFT JOIN note_category nc ON n.id = nc.note_id
        LEFT JOIN categories c ON nc.category_id = c.id",
            &none,
        )?;
        let notes = group_note_rows(&rows);
        assert(listed(notes@));
        Ok(notes)
    }

    /// The category with this id, or `None`: [`category_from_rows`] of the
    /// rows that the store returns for the id.
    /// A row with another id is not taken for it.
    pub fn get_category_by_id(&self, id: &str) -> (r: Result<Option<Category>, NotebookError>)
        ensures
            r matches Ok(Some(c)) ==> c.id@ == id@,
            r matches Ok(found) ==> exists|rows: Seq<CategoryRow>| #[trigger] category_for_id(rows, id@, found),
            r matches Err(e) ==> e is ModelPersistence,
    {
        let rows = self.category_rows("SELECT id, label FROM categories WHERE id = ?1", id)?;
        let found = category_with_id(&rows, id);
        assert(category_for_id(rows@, id@, found));
        Ok(found)
    }

    /// The category whose label equals the trimmed `label` ignoring case, as
    /// stored; when there is none, a new category with the trimmed label,
    /// stored first.
    /// See [`settle_category`] for the choice.
    pub fn get_or_create_category(&self, label: &str) -> (r: Result<Category, NotebookError>)
        ensures
            r matches Ok(c) ==> settled_for(label@, c@),
            r matches Err(e) ==> e is ModelPersistence,
    {
        let ghost given = label@;
        let trimmed = trim_text(label);
        let key = category_key(label);
        let rows = self.category_rows(
            "SELECT id, label FROM categories WHERE LOWER(label) = LOWER(?1)",
            key.as_str(),
        )?;
        let (category, is_new) = settle_category(&rows, trimmed.as_str());
        let ghost settled = category@;
        assert(settles(rows@, trimmed@, settled));
        if !is_new {
            assert(settled_for(given, settled));
            Ok(category)
        } else {
            let params = category_insert_params(&category);
            self.run("INSERT INTO categories (id, label) VALUES (?1, ?2)", &params)?;
            assert(category@ == settled);
            assert(settled_for(given, settled));
            Ok(category)
        }
    }

    /// Stores a new note; fails when its id is stored already.
    pub fn add_note(&self, note: &Note) -> (r: Result<(), NotebookError>)
        ensures
            r matches Err(e) ==> e is ModelPersistence,
    {
        let params = note_insert_params(note);
        self.run(
            "INSERT INTO notes (id, content, created, modified) VALUES (?1, ?2, ?3, ?4)",
            &params,
        )?;
        Ok(())
    }

    /// Stores the text and modification time of a stored note; fails with
    /// `NoteNotFound` when no note has its id.
    pub fn update_note_text(&self, note: &Note) -> (r: Result<Note, NotebookError>)
        ensures
            r matches Ok(n) ==> n@ == note@,
            r matches Err(e) ==> e is ModelPersistence || e is NoteNotFound,
    {
        let params = note_update_params(note);
        let changed = self.run(
            "UPDATE notes SET content = ?1, modified = ?2 WHERE id = ?3",
            &params,
        )?;
        update_outcome(changed, note)
    }

    /// Replaces every association of the note with the categories it holds:
    /// runs the [`reconcile_statements`] of the note in order, stopping at the
    /// first that fails.
    pub fn reconcile_note_categories(&self, note: &Note) -> (r: Result<(), NotebookError>)
        ensures
            r matches Err(e) ==> e is ModelPersistence,
    {
        let statements = reconcile_statements(note);
        let mut i: usize = 0;
        while i < statements.len()
            invariant
                0 <= i <= statements@.len(),
            decreases statements@.len() - i,
        {
            self.run(statements[i].sql.as_str(), &statements[i].params)?;
            i = i + 1;
        }
        Ok(())
    }

    /// Removes the note, then its associations; associations left behind by a
    /// failure in between name no note, and no read ever returns them.
    pub fn delete_note(&self, id: &str) -> (r: Result<(), NotebookError>)
        ensures
            r matches Err(e) ==> e is ModelPersistence,
    {
        let params = id_params(id);
        self.run("DELETE FROM notes WHERE id = ?1", &params)?;
        self.run("DELETE FROM note_category WHERE note_id = ?1", &params)?;
        Ok(())
    }

    /// Removes every note and every association.
    pub fn delete_all_notes(&self) -> (r: Result<(), NotebookError>)
        ensures
            r matches Err(e) ==> e is ModelPersistence,
    {
        let none: Vec<SqlParam> = Vec::new();
        self.run("DELETE FROM notes", &none)?;
        self.run("DELETE FROM note_category", &none)?;
        Ok(())
    }
}

} // verus!
