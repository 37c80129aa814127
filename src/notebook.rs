use vstd::prelude::*;

use crate::error::NotebookError;
use crate::ids::{new_uuid, now_timestamp};
use crate::note::{holds_id, unique_ids, with_category, without_id, Category, CategoryView, Note, NoteView, TextChunk};
use crate::repository::{all_wf, category_for_id, distinct_ids, group_rows, listed, row_views, settled_for, NotebookRepository, RowView};
use crate::sqlite::{CategoryRow, NoteRow};
use crate::similar::{
    ascending, below_threshold, candidates, hit_views, lemma_below_threshold, lemma_other_hits_exclude,
    lemma_resolve, lemma_sort_ascending, min_nat, note_views, other_hits, pair_views, resolve,
    resolve_candidates, select_candidates, sort_by_distance, Distance, HitView, SimilarHit,
    SIMILARS_DEFAULT_LIMIT, SIMILARS_DEFAULT_THRESHOLD_BITS,
};
use crate::sqlite::open_connection;
use crate::title::{export_file_names, export_names, titles_of};

verus! {

/// A change that the vector index must make to follow the relational store.
#[derive(Clone, Debug)]
pub enum EmbedAction {
    /// Embed these records and store them, replacing records with their ids.
    Upsert(Vec<TextChunk>),
    /// Remove the records with these ids.
    Delete(Vec<String>),
    /// Remove every record.
    Clear,
}

/// The action stores exactly the records of `notes`, in order.
pub open spec fn upserts(a: EmbedAction, notes: Seq<NoteView>) -> bool {
    match a {
        EmbedAction::Upsert(chunks) => chunks@.len() == notes.len() && forall|k: int|
            0 <= k < notes.len() ==> (#[trigger] chunks@[k]).id@ == notes[k].id && chunks@[k].text@
                == notes[k].text,
        _ => false,
    }
}

/// The action removes exactly the record with this id.
pub open spec fn deletes(a: EmbedAction, id: Seq<char>) -> bool {
    match a {
        EmbedAction::Delete(ids) => ids@.len() == 1 && ids@[0]@ == id,
        _ => false,
    }
}

/// `after` is `before` with one more action, `a`, at the end.
pub open spec fn appended(before: Seq<EmbedAction>, after: Seq<EmbedAction>, a: EmbedAction) -> bool {
    after == before.push(a)
}

/// A file name whose extension, as `Path::extension` reads it, is `md`: it
/// ends in `".md"` and has at least one character before that dot.
pub open spec fn has_note_extension(name: Seq<char>) -> bool {
    name.len() > 3 && name[name.len() - 3] == '.' && name[name.len() - 2] == 'm' && name[name.len()
        - 1] == 'd'
}

/// Whether a file name is that of a note file (extension `md`).
pub fn is_note_file_name(name: &str) -> (r: bool)
    ensures
        r == has_note_extension(name@),
{
    let n = name.unicode_len();
    n > 3 && name.get_char(n - 3) == '.' && name.get_char(n - 2) == 'm' && name.get_char(n - 1) == 'd'
}

/// The texts of the files whose name is that of a note file, in order; a
/// file is a pair of its name and its text.
pub open spec fn note_file_texts(files: Seq<(String, String)>) -> Seq<Seq<char>>
    decreases files.len(),
{
    if files.len() == 0 {
        Seq::empty()
    } else {
        let rest = note_file_texts(files.drop_last());
        if has_note_extension(files.last().0@) {
            rest.push(files.last().1@)
        } else {
            rest
        }
    }
}

/// The texts of the note files among `files` (name, text), in order.
pub fn select_note_files(files: &Vec<(String, String)>) -> (r: Vec<String>)
    ensures
        r@.map_values(|s: String| s@) == note_file_texts(files@),
{
    let mut out: Vec<String> = Vec::new();
    let mut i: usize = 0;
    while i < files.len()
        invariant
            0 <= i <= files@.len(),
            out@.map_values(|s: String| s@) == note_file_texts(files@.take(i as int)),
        decreases files@.len() - i,
    {
        assert(files@.take(i + 1).drop_last() =~= files@.take(i as int));
        let ghost prev = out@;
        if is_note_file_name(files[i].0.as_str()) {
            out.push(files[i].1.clone());
            assert(out@.map_values(|s: String| s@) =~= prev.map_values(|s: String| s@).push(files@[i as int].1@));
        }
        i = i + 1;
    }
    assert(files@.take(files@.len() as int) =~= files@);
    out
}

/// How many hits to ask the vector index for, so that `limit` remain once the
/// query note itself is taken out: one more than the limit (default
/// [`SIMILARS_DEFAULT_LIMIT`]).
pub fn similar_fetch_limit(limit: Option<usize>) -> (r: usize)
    ensures
        r == min_nat(
            (match limit {
                Some(l) => l,
                None => SIMILARS_DEFAULT_LIMIT,
            }) as nat + 1,
            usize::MAX as nat,
        ),
{
    let l = match limit {
        Some(l) => l,
        None => SIMILARS_DEFAULT_LIMIT,
    };
    if l < usize::MAX {
        l + 1
    } else {
        l
    }
}

/// The limit and threshold that a similarity search uses: the given ones, or
/// the defaults.
pub open spec fn effective_limit(limit: Option<usize>) -> nat {
    match limit {
        Some(l) => l as nat,
        None => SIMILARS_DEFAULT_LIMIT as nat,
    }
}

pub open spec fn effective_threshold(threshold: Option<Distance>) -> u32 {
    match threshold {
        Some(t) => t.bits,
        None => SIMILARS_DEFAULT_THRESHOLD_BITS,
    }
}

/// Ranks the hits of a similarity search for the note `note_id` against the
/// stored notes `notes`: the `limit` nearest hits other than the note itself,
/// those strictly below `threshold`, each paired with its note, by ascending
/// distance; hits that no note has are dropped.
pub fn rank_similar(
    note_id: &str,
    hits: &Vec<SimilarHit>,
    limit: usize,
    threshold: Distance,
    notes: &Vec<Note>,
) -> (r: Vec<(Note, Distance)>)
    ensures
        pair_views(r@) == resolve(
            candidates(hit_views(hits@), note_id@, limit as nat, threshold.bits),
            note_views(notes@),
        ),
{
    let cands = select_candidates(hits, note_id, limit, threshold);
    resolve_candidates(&cands, notes)
}

/// What every ranked result satisfies: the query note is not among them,
/// each distance is strictly below the threshold, and distances ascend.
pub open spec fn well_ranked(r: Seq<(NoteView, u32)>, note_id: Seq<char>, threshold: u32) -> bool {
    &&& forall|k: int| 0 <= k < r.len() ==> (#[trigger] r[k]).0.id != note_id
    &&& forall|k: int| 0 <= k < r.len() ==> (#[trigger] r[k]).1 < threshold
    &&& forall|a: int, b: int| 0 <= a < b < r.len() ==> (#[trigger] r[a]).1 <= (#[trigger] r[b]).1
}

/// A similarity search never returns the query note, returns only results
/// strictly below the threshold, and returns them by ascending distance,
/// whatever the index and the store hold.
pub proof fn lemma_ranking_well_formed(
    hits: Seq<HitView>,
    note_id: Seq<char>,
    limit: nat,
    threshold: u32,
    notes: Seq<NoteView>,
)
    ensures
        well_ranked(resolve(candidates(hits, note_id, limit, threshold), notes), note_id, threshold),
{
    let others = other_hits(hits, note_id);
    let near = sort_by_distance(others);
    let top = near.take(min_nat(limit, near.len()) as int);
    let cands = candidates(hits, note_id, limit, threshold);
    lemma_other_hits_exclude(hits, note_id);
    lemma_sort_ascending(others);
    assert(ascending(top));
    lemma_below_threshold(top, threshold);
    lemma_resolve(cands, notes);
    let r = resolve(cands, notes);
    assert forall|k: int| 0 <= k < r.len() implies (#[trigger] r[k]).0.id != note_id && r[k].1
        < threshold by {
        let x = HitView { id: r[k].0.id, distance: r[k].1 };
        assert(cands.contains(x));
        let m = choose|m: int| 0 <= m < cands.len() && cands[m] == x;
        assert(below_threshold(top, threshold)[m].distance < threshold);
        assert(top.contains(x));
        let t = choose|t: int| 0 <= t < top.len() && top[t] == x;
        assert(near[t] == x);
        assert(near.contains(x));
        assert(others.contains(x));
        let o = choose|o: int| 0 <= o < others.len() && others[o] == x;
        assert(others[o].id != note_id);
    }
}

/// Attaching a category twice leaves a note as attaching it once does, and
/// the note then holds exactly one category with its id.
pub proof fn lemma_add_category_idempotent(cats: Seq<CategoryView>, c: CategoryView)
    requires
        unique_ids(cats),
    ensures
        with_category(with_category(cats, c), c) == with_category(cats, c),
        unique_ids(with_category(cats, c)),
        exists|k: int|
            0 <= k < with_category(cats, c).len() && #[trigger] with_category(cats, c)[k].id == c.id
                && forall|j: int| 0 <= j < with_category(cats, c).len() && #[trigger] with_category(cats, c)[j].id == c.id ==> j == k,
{
    let once = with_category(cats, c);
    if holds_id(cats, c.id) {
        let k = choose|k: int| 0 <= k < cats.len() && cats[k].id == c.id;
        assert(once[k].id == c.id);
    } else {
        assert(once[cats.len() as int].id == c.id);
        assert(holds_id(once, c.id));
    }
}

/// Detaching an id leaves no category with it, and keeps the ids unique.
pub proof fn lemma_without_id(cats: Seq<CategoryView>, id: Seq<char>)
    requires
        unique_ids(cats),
    ensures
        !holds_id(without_id(cats, id), id),
        unique_ids(without_id(cats, id)),
        forall|x: CategoryView| #[trigger] without_id(cats, id).contains(x) ==> cats.contains(x),
    decreases cats.len(),
{
    if cats.len() > 0 {
        let d = cats.drop_last();
        lemma_without_id(d, id);
        let r = without_id(cats, id);
        let rd = without_id(d, id);
        assert forall|x: CategoryView| #[trigger] r.contains(x) implies cats.contains(x) by {
            let k = choose|k: int| 0 <= k < r.len() && r[k] == x;
            if k < rd.len() {
                assert(rd.contains(x));
                let m = choose|m: int| 0 <= m < d.len() && d[m] == x;
                assert(cats[m] == x);
            } else {
                assert(cats[cats.len() - 1] == x);
            }
        }
        if cats.last().id != id {
            assert forall|a: int, b: int| 0 <= a < b < r.len() implies r[a].id != r[b].id by {
                if b == rd.len() {
                    assert(rd.contains(r[a]));
                    let m = choose|m: int| 0 <= m < d.len() && d[m] == r[a];
                    assert(cats[m] == r[a]);
                } else {
                    assert(r[a] == rd[a]);
                    assert(r[b] == rd[b]);
                }
            }
            if holds_id(r, id) {
                let k = choose|k: int| 0 <= k < r.len() && r[k].id == id;
                if k < rd.len() {
                    assert(rd[k].id == id);
                }
            }
        }
    }
}

/// A category id that is absent stays absent when it is removed.
pub proof fn lemma_without_absent_id(cats: Seq<CategoryView>, id: Seq<char>)
    requires
        !holds_id(cats, id),
    ensures
        without_id(cats, id) == cats,
    decreases cats.len(),
{
    if cats.len() > 0 {
        let d = cats.drop_last();
        if holds_id(d, id) {
            let k = choose|k: int| 0 <= k < d.len() && d[k].id == id;
            assert(cats[k].id == id);
        }
        assert(cats.last().id != id);
        lemma_without_absent_id(d, id);
        assert(d.push(cats.last()) =~= cats);
    }
}

/// The stored note `stored` with its text replaced by `content` and modified
/// at `now`; its id, categories and creation time are kept.
pub fn updated_note(stored: Note, content: &str, now: i64) -> (r: Note)
    requires
        stored.wf(),
    ensures
        r.wf(),
        r@ == (NoteView { text: content@, modified: now, ..stored@ }),
{
    let mut note = stored;
    note.text = content.to_string();
    note.set_modified(now);
    note
}

/// The stored note `stored` with `category` attached; the flag says that its
/// associations must be stored again, which is so exactly when the category
/// was not attached yet.
pub fn tagged_note(stored: Note, category: Category) -> (r: (Note, bool))
    requires
        stored.wf(),
    ensures
        r.0.wf(),
        r.0@ == (NoteView { categories: with_category(stored@.categories, category@), ..stored@ }),
        r.1 == !holds_id(stored@.categories, category.id@),
        holds_id(r.0@.categories, category.id@),
{
    let mut note = stored;
    proof {
        lemma_add_category_idempotent(note@.categories, category@);
    }
    let attach = !note.has_category(&category);
    if attach {
        note.add_category(category);
    }
    (note, attach)
}

/// The stored note `stored` without the category `category_id`; `found` is
/// that category as the store holds it, or `None` when the store does not
/// know the id. The flag says that the associations must be stored again:
/// when the id was attached, or when the store does not know it.
pub fn untagged_note(stored: Note, found: Option<Category>, category_id: &str) -> (r: (Note, bool))
    requires
        stored.wf(),
        found matches Some(c) ==> c.id@ == category_id@,
    ensures
        r.0.wf(),
        r.0@ == (NoteView { categories: without_id(stored@.categories, category_id@), ..stored@ }),
        !holds_id(r.0@.categories, category_id@),
        r.1 == (found is None || holds_id(stored@.categories, category_id@)),
{
    let mut note = stored;
    proof {
        lemma_without_id(note@.categories, category_id@);
    }
    match found {
        Some(category) => {
            if note.has_category(&category) {
                note.remove_category(category);
                (note, true)
            } else {
                proof {
                    lemma_without_absent_id(note@.categories, category_id@);
                }
                (note, false)
            }
        },
        None => {
            note.remove_category_by_id(category_id);
            (note, true)
        },
    }
}

/// The note that a lookup of `id` found, or `NoteNotFound` when it found none.
pub fn found_note(found: Option<Note>, id: &str) -> (r: Result<Note, NotebookError>)
    ensures
        found is None <==> r is Err,
        r matches Err(e) ==> e is NoteNotFound,
        r matches Ok(n) ==> n@ == found->0@,
{
    match found {
        Some(n) => Ok(n),
        None => Err(NotebookError::NoteNotFound(id.to_string())),
    }
}

/// The note that an update of `id` stores: the note found, with the text
/// `content` and modified at `now`; `NoteNotFound` when the lookup found none.
pub fn update_target(found: Option<Note>, id: &str, content: &str, now: i64) -> (r: Result<Note, NotebookError>)
    requires
        found matches Some(n) ==> n.wf(),
    ensures
        found is None <==> r is Err,
        r matches Err(e) ==> e is NoteNotFound,
        r matches Ok(n) ==> n.wf() && n@ == (NoteView { text: content@, modified: now, ..found->0@ }),
{
    match found {
        Some(stored) => Ok(updated_note(stored, content, now)),
        None => Err(NotebookError::NoteNotFound(id.to_string())),
    }
}

/// The ids of the candidates, in order.
pub fn candidate_ids(cands: &Vec<SimilarHit>) -> (r: Vec<String>)
    ensures
        r@.map_values(|s: String| s@) == hit_views(cands@).map_values(|h: HitView| h.id),
{
    let mut ids: Vec<String> = Vec::new();
    let mut i: usize = 0;
    while i < cands.len()
        invariant
            0 <= i <= cands@.len(),
            ids@.len() == i,
            ids@.map_values(|s: String| s@) == hit_views(cands@).map_values(|h: HitView| h.id).take(i as int),
        decreases cands@.len() - i,
    {
        let ghost prev = ids@;
        let id = cands[i].id.clone();
        assert(id@ == hit_views(cands@).map_values(|h: HitView| h.id)[i as int]);
        ids.push(id);
        assert(ids@.map_values(|s: String| s@) =~= prev.map_values(|s: String| s@).push(id@));
        assert(ids@.map_values(|s: String| s@) =~= hit_views(cands@).map_values(|h: HitView| h.id).take(i + 1));
        i = i + 1;
    }
    assert(hit_views(cands@).map_values(|h: HitView| h.id).take(cands@.len() as int) =~= hit_views(cands@).map_values(|h: HitView| h.id));
    ids
}

/// `n` is the stored note `o` with the text `content`, modified at some time.
pub open spec fn updated_from(o: NoteView, n: NoteView, content: Seq<char>) -> bool {
    n == (NoteView { text: content, modified: n.modified, ..o })
}

/// `n` is the stored note `o` without the categories with id `id`, the others kept.
pub open spec fn untagged_from(o: NoteView, n: NoteView, id: Seq<char>) -> bool {
    n == (NoteView { categories: without_id(o.categories, id), ..o })
}

/// `n` is the stored note `o` tagged with `c`, a category settled on for `label`.
pub open spec fn tagged_from(o: NoteView, n: NoteView, label: Seq<char>, c: CategoryView) -> bool {
    &&& settled_for(label, c)
    &&& n == (NoteView { categories: with_category(o.categories, c), ..o })
    &&& holds_id(n.categories, c.id)
}

/// The notebook: notes and categories in the relational store, kept in step
/// with a vector index. Each write that succeeds in the relational store
/// queues, in `embed_actions`, the change that the vector index must then
/// make; the caller carries them out in order.
pub struct Notebook {
    pub models_store: NotebookRepository,
    pub embed_actions: Vec<EmbedAction>,
}

impl Notebook {
    /// Opens (or creates) the relational store in the database file `db_path`.
    pub fn new(db_path: &str) -> (r: Result<Notebook, NotebookError>)
        ensures
            r matches Ok(nb) ==> nb.embed_actions@.len() == 0,
            r matches Err(e) ==> e is ModelPersistence,
    {
        match open_connection(db_path) {
            Ok(conn) => Notebook::from_connection(conn),
            Err(e) => Err(NotebookError::from_sql(&e)),
        }
    }

    /// A notebook over an open database connection, its tables created if need be.
    pub fn from_connection(conn: rusqlite::Connection) -> (r: Result<Notebook, NotebookError>)
        ensures
            r matches Ok(nb) ==> nb.embed_actions@.len() == 0,
            r matches Err(e) ==> e is ModelPersistence,
    {
        let store = NotebookRepository::new(conn);
        store.init_db()?;
        Ok(Notebook { models_store: store, embed_actions: Vec::new() })
    }

    /// Takes the queued vector-index actions, oldest first.
    pub fn take_embed_actions(&mut self) -> (r: Vec<EmbedAction>)
        ensures
            r@ == old(self).embed_actions@,
            final(self).embed_actions@.len() == 0,
    {
        let mut taken: Vec<EmbedAction> = Vec::new();
        std::mem::swap(&mut taken, &mut self.embed_actions);
        taken
    }

    /// Creates a note (`id` is `None`) or replaces the text of the note `id`.
    /// A new note gets a fresh id and is created and modified now; an updated
    /// one is modified now and keeps its categories. The note is written to
    /// the relational store, then its record is queued for the vector index.
    pub fn upsert_note(&mut self, id: Option<&str>, content: &str) -> (r: Result<Note, NotebookError>)
        ensures
            r matches Ok(n) ==> {
                &&& n@.text == content@
                &&& n.wf()
                &&& id matches Some(x) ==> exists|o: NoteView| o.id == x@ && #[trigger] updated_from(o, n@, content@)
                &&& id is None ==> n@.categories.len() == 0 && n@.created == n@.modified && n@.id.len() == 36
                &&& final(self).embed_actions@.len() == old(self).embed_actions@.len() + 1
                &&& final(self).embed_actions@.drop_last() == old(self).embed_actions@
                &&& upserts(final(self).embed_actions@.last(), seq![n@])
            },
            r is Err ==> final(self).embed_actions@ == old(self).embed_actions@,
            r matches Err(e) ==> e is ModelPersistence || e is NoteNotFound,
    {
        let note = match id {
            Some(id) => {
                let found = self.models_store.get_note(id)?;
                let ghost o = found->0@;
                let note = update_target(found, id, content, now_timestamp())?;
                let saved = self.models_store.update_note_text(&note)?;
                assert(updated_from(o, saved@, content@));
                saved
            },
            None => {
                let note = Note::new(new_uuid().as_str(), content);
                self.models_store.add_note(&note)?;
                note
            },
        };
        self.queue_upsert(&note);
        Ok(note)
    }

    fn queue_upsert(&mut self, note: &Note)
        ensures
            final(self).models_store == old(self).models_store,
            final(self).embed_actions@.len() == old(self).embed_actions@.len() + 1,
            final(self).embed_actions@.drop_last() == old(self).embed_actions@,
            upserts(final(self).embed_actions@.last(), seq![note@]),
    {
        let mut chunks: Vec<TextChunk> = Vec::new();
        chunks.push(note.to_text_chunk());
        self.embed_actions.push(EmbedAction::Upsert(chunks));
    }

    /// Attaches the category labelled `label` (found ignoring case, or
    /// created) to the note `note_id`, unless the note holds it already.
    pub fn add_category_to_note(&self, note_id: &str, label: &str) -> (r: Result<Note, NotebookError>)
        ensures
            r matches Ok(n) ==> n@.id == note_id@ && n.wf() && exists|o: NoteView, c: CategoryView|
                o.id == note_id@ && unique_ids(o.categories) && #[trigger] tagged_from(o, n@, label@, c),
            r matches Err(e) ==> e is ModelPersistence || e is NoteNotFound,
    {
        let category = self.get_or_create_category(label)?;
        let stored = found_note(self.get_note_by_id(note_id)?, note_id)?;
        let ghost o = stored@;
        let ghost c = category@;
        let (note, attach) = tagged_note(stored, category);
        if attach {
            self.models_store.reconcile_note_categories(&note)?;
        }
        assert(tagged_from(o, note@, label@, c));
        Ok(note)
    }

    /// Detaches the category `category_id` from the note `note_id`. A
    /// category id that the store does not know is still stripped from the
    /// note.
    pub fn remove_category_from_note(&self, note_id: &str, category_id: &str) -> (r: Result<Note, NotebookError>)
        ensures
            r matches Ok(n) ==> n@.id == note_id@ && n.wf() && !holds_id(n@.categories, category_id@)
                && exists|o: NoteView| o.id == note_id@ && #[trigger] untagged_from(o, n@, category_id@),
            r matches Err(e) ==> e is ModelPersistence || e is NoteNotFound,
    {
        let stored = found_note(self.get_note_by_id(note_id)?, note_id)?;
        let ghost o = stored@;
        let found = self.get_category_by_id(category_id)?;
        let (note, due) = untagged_note(stored, found, category_id);
        if due {
            self.models_store.reconcile_note_categories(&note)?;
        }
        assert(untagged_from(o, note@, category_id@));
        Ok(note)
    }

    /// The category whose label equals `label` ignoring case, created when
    /// there is none.
    pub fn get_or_create_category(&self, label: &str) -> (r: Result<Category, NotebookError>)
        ensures
            r matches Ok(c) ==> settled_for(label@, c@),
            r matches Err(e) ==> e is ModelPersistence,
    {
        self.models_store.get_or_create_category(label)
    }

    /// The category with this id, or `None`.
    pub fn get_category_by_id(&self, id: &str) -> (r: Result<Option<Category>, NotebookError>)
        ensures
            r matches Ok(Some(c)) ==> c.id@ == id@,
            r matches Ok(found) ==> exists|rows: Seq<CategoryRow>| #[trigger] category_for_id(rows, id@, found),
            r matches Err(e) ==> e is ModelPersistence,
    {
        self.models_store.get_category_by_id(id)
    }

    /// Removes every note, then queues clearing the vector index.
    pub fn delete_all_notes(&mut self) -> (r: Result<(), NotebookError>)
        ensures
            r is Ok ==> appended(old(self).embed_actions@, final(self).embed_actions@, EmbedAction::Clear),
            r is Err ==> final(self).embed_actions@ == old(self).embed_actions@,
            r matches Err(e) ==> e is ModelPersistence,
    {
        self.models_store.delete_all_notes()?;
        self.embed_actions.push(EmbedAction::Clear);
        Ok(())
    }

    /// Every note with its categories.
    pub fn get_notes(&self) -> (r: Result<Vec<Note>, NotebookError>)
        ensures
            r matches Ok(notes) ==> all_wf(notes@) && listed(notes@) && distinct_ids(notes@),
            r matches Err(e) ==> e is ModelPersistence,
    {
        self.models_store.get_notes()
    }

    /// The note with this id, or `None`.
    pub fn get_note_by_id(&self, id: &str) -> (r: Result<Option<Note>, NotebookError>)
        ensures
            r matches Ok(Some(n)) ==> n@.id == id@ && n.wf(),
            r matches Err(e) ==> e is ModelPersistence,
    {
        self.models_store.get_note(id)
    }

    /// Removes the note from the relational store, then queues removing its
    /// record from the vector index.
    pub fn delete_note(&mut self, id: &str) -> (r: Result<(), NotebookError>)
        ensures
            r is Ok ==> final(self).embed_actions@.len() == old(self).embed_actions@.len() + 1
                && final(self).embed_actions@.drop_last() == old(self).embed_actions@
                && deletes(final(self).embed_actions@.last(), id@),
            r is Err ==> final(self).embed_actions@ == old(self).embed_actions@,
            r matches Err(e) ==> e is ModelPersistence,
    {
        self.models_store.delete_note(id)?;
        let mut ids: Vec<String> = Vec::new();
        ids.push(id.to_string());
        self.embed_actions.push(EmbedAction::Delete(ids));
        Ok(())
    }

    /// The notes similar to `note`, from the hits that the vector index gave
    /// for its text: see [`rank_similar`]. The limit defaults to
    /// [`SIMILARS_DEFAULT_LIMIT`], the threshold to 0.01.
    pub fn get_note_similars(
        &self,
        note: &Note,
        hits: &Vec<SimilarHit>,
        limit: Option<usize>,
        threshold: Option<Distance>,
    ) -> (r: Result<Vec<(Note, Distance)>, NotebookError>)
        ensures
            r matches Ok(found) ==> {
                &&& well_ranked(pair_views(found@), note@.id, effective_threshold(threshold))
                &&& exists|rows: Seq<RowView>| pair_views(found@) == resolve(
                    candidates(hit_views(hits@), note@.id, effective_limit(limit), effective_threshold(threshold)),
                    #[trigger] group_rows(rows),
                )
            },
            candidates(hit_views(hits@), note@.id, effective_limit(limit), effective_threshold(threshold)).len() == 0
                ==> (r matches Ok(found) && found@.len() == 0),
            r matches Err(e) ==> e is ModelPersistence,
    {
        let lim = match limit {
            Some(l) => l,
            None => SIMILARS_DEFAULT_LIMIT,
        };
        let thr = match threshold {
            Some(t) => t,
            None => Distance::from_bits(SIMILARS_DEFAULT_THRESHOLD_BITS),
        };
        assert(lim as nat == effective_limit(limit));
        assert(thr.bits == effective_threshold(threshold));
        let cands = select_candidates(hits, note.id.as_str(), lim, thr);
        let ids = candidate_ids(&cands);
        assert(ids@.map_values(|s: String| s@).len() == hit_views(cands@).map_values(|h: HitView| h.id).len());
        assert(ids@.len() == cands@.len());
        let stored = self.models_store.get_notes_by_ids(&ids)?;
        let found = resolve_candidates(&cands, &stored);
        if cands.len() == 0 {
            assert(hit_views(cands@) =~= Seq::<HitView>::empty());
            assert(resolve(hit_views(cands@), note_views(stored@)) == Seq::<(NoteView, u32)>::empty());
            assert(pair_views(found@).len() == 0);
            assert(found@.len() == 0);
        }
        proof {
            lemma_ranking_well_formed(hit_views(hits@), note@.id, lim as nat, thr.bits, note_views(stored@));
        }
        assert(listed(stored@));
        let ghost rows = choose|rows: Seq<NoteRow>| note_views(stored@) == #[trigger] group_rows(row_views(rows));
        assert(pair_views(found@) == resolve(
            candidates(hit_views(hits@), note@.id, effective_limit(limit), effective_threshold(threshold)),
            group_rows(row_views(rows)),
        ));
        Ok(found)
    }

    /// The files an export writes: for each note, in listing order, its file
    /// name (see [`export_file_names`]) and its text; writing them is left to the caller.
    pub fn export_notes(&self) -> (r: Result<Vec<(String, String)>, NotebookError>)
        ensures
            r matches Ok(files) ==> exists|notes: Seq<Note>| {
                &&& #[trigger] listed(notes)
                &&& files@.len() == notes.len()
                &&& files@.map_values(|f: (String, String)| f.0@) == export_names(titles_of(notes))
                &&& files@.map_values(|f: (String, String)| f.1@) == notes.map_values(|n: Note| n.text@)
            },
            r matches Err(e) ==> e is ModelPersistence,
    {
        let notes = self.get_notes()?;
        let names = export_file_names(&notes);
        let ghost want = export_names(titles_of(notes@));
        proof {
            crate::title::lemma_export_names_len(titles_of(notes@));
        }
        let mut files: Vec<(String, String)> = Vec::new();
        let mut i: usize = 0;
        while i < notes.len()
            invariant
                0 <= i <= notes@.len(),
                names@.map_values(|s: String| s@) == want,
                want.len() == notes@.len(),
                files@.len() == i,
                files@.map_values(|f: (String, String)| f.0@) == want.take(i as int),
                files@.map_values(|f: (String, String)| f.1@) == notes@.map_values(|n: Note| n.text@).take(i as int),
            decreases notes@.len() - i,
        {
            let ghost prev = files@;
            assert(names@[i as int]@ == want[i as int]);
            let name = names[i].clone();
            let text = notes[i].text.clone();
            files.push((name, text));
            assert(files@[i as int].0@ == want[i as int]);
            assert(want.take(i + 1) =~= want.take(i as int).push(want[i as int]));
            assert(files@.map_values(|f: (String, String)| f.0@) =~= prev.map_values(|f: (String, String)| f.0@).push(want[i as int]));
            assert(files@.map_values(|f: (String, String)| f.0@) =~= want.take(i + 1));
            assert(files@.map_values(|f: (String, String)| f.1@) =~= notes@.map_values(|n: Note| n.text@).take(i + 1));
            i = i + 1;
        }
        assert(want.take(notes@.len() as int) =~= want);
        assert(notes@.map_values(|n: Note| n.text@).take(notes@.len() as int) =~= notes@.map_values(|n: Note| n.text@));
        Ok(files)
    }

    /// Imports the note files among `files` (name, text): see
    /// [`select_note_files`] and [`Notebook::import_notes`]. Gives the number
    /// of notes created, which is the number of note files.
    pub fn import_note_files(&mut self, files: &Vec<(String, String)>) -> (r: Result<usize, NotebookError>)
        ensures
            r matches Ok(n) ==> n == note_file_texts(files@).len(),
            note_file_texts(files@).len() == 0 ==> r matches Ok(0),
            r matches Err(e) ==> e is ModelPersistence,
    {
        let texts = select_note_files(files);
        assert(texts@.map_values(|s: String| s@).len() == texts@.len());
        self.import_notes(&texts)
    }

    /// Creates one note per text (fresh id, created now), writes each to the
    /// relational store, then queues one vector-index upsert of them all.
    /// Gives the number of notes created.
    pub fn import_notes(&mut self, contents: &Vec<String>) -> (r: Result<usize, NotebookError>)
        ensures
            r matches Ok(n) ==> {
                &&& n == contents@.len()
                &&& final(self).embed_actions@.len() == old(self).embed_actions@.len() + 1
                &&& final(self).embed_actions@.drop_last() == old(self).embed_actions@
                &&& final(self).embed_actions@.last() matches EmbedAction::Upsert(chunks)
                &&& chunks@.len() == contents@.len()
                &&& forall|k: int| 0 <= k < contents@.len() ==> (#[trigger] chunks@[k]).text@ == contents@[k]@
                    && chunks@[k].id@.len() == 36
            },
            contents@.len() == 0 ==> r matches Ok(0),
            r is Err ==> final(self).embed_actions@ == old(self).embed_actions@,
            r matches Err(e) ==> e is ModelPersistence,
    {
        let mut chunks: Vec<TextChunk> = Vec::new();
        let mut i: usize = 0;
        while i < contents.len()
            invariant
                0 <= i <= contents@.len(),
                chunks@.len() == i,
                forall|k: int| 0 <= k < i ==> (#[trigger] chunks@[k]).text@ == contents@[k]@
                    && chunks@[k].id@.len() == 36,
            decreases contents@.len() - i,
        {
            let note = Note::new(new_uuid().as_str(), contents[i].as_str());
            self.models_store.add_note(&note)?;
            chunks.push(note.to_text_chunk());
            i = i + 1;
        }
        let count = chunks.len();
        self.embed_actions.push(EmbedAction::Upsert(chunks));
        Ok(count)
    }
}

} // verus!
