use vstd::prelude::*;

use crate::ids::{new_uuid, now_timestamp};
use crate::text::same_text;

verus! {

/// The mathematical value of a [`Category`].
pub ghost struct CategoryView {
    pub id: Seq<char>,
    pub label: Seq<char>,
}

/// A tag attachable to notes. Two categories are the same when their ids are.
#[derive(Clone, Debug)]
pub struct Category {
    pub id: String,
    pub label: String,
}

impl View for Category {
    type V = CategoryView;

    open spec fn view(&self) -> CategoryView {
        CategoryView { id: self.id@, label: self.label@ }
    }
}

impl PartialEq for Category {
    fn eq(&self, other: &Category) -> (r: bool)
        ensures
            r == (self.id@ == other.id@),
    {
        self.id == other.id
    }
}

impl vstd::std_specs::cmp::PartialEqSpecImpl for Category {
    open spec fn obeys_eq_spec() -> bool {
        true
    }

    open spec fn eq_spec(&self, other: &Category) -> bool {
        self.id@ == other.id@
    }
}

impl Category {
    /// A new category with a freshly generated id.
    pub fn new(label: &str) -> (r: Category)
        ensures
            r.label@ == label@,
            r.id@.len() == 36,
    {
        let id = new_uuid();
        Category { id, label: label.to_string() }
    }

    /// Rebuilds a category from stored values.
    pub fn hydrate(id: &str, label: &str) -> (r: Category)
        ensures
            r.id@ == id@,
            r.label@ == label@,
    {
        Category { id: id.to_string(), label: label.to_string() }
    }

    pub fn get_id(&self) -> (r: &str)
        ensures
            r@ == self.id@,
    {
        self.id.as_str()
    }

    pub fn get_label(&self) -> (r: &str)
        ensures
            r@ == self.label@,
    {
        self.label.as_str()
    }

    /// A copy with the same id and label.
    pub fn copy(&self) -> (r: Category)
        ensures
            r@ == self@,
    {
        Category { id: self.id.clone(), label: self.label.clone() }
    }
}

/// No two categories of the sequence share an id.
pub open spec fn unique_ids(cats: Seq<CategoryView>) -> bool {
    forall|i: int, j: int| 0 <= i < j < cats.len() ==> cats[i].id != cats[j].id
}

/// Some category of the sequence has the id.
pub open spec fn holds_id(cats: Seq<CategoryView>, id: Seq<char>) -> bool {
    exists|i: int| 0 <= i < cats.len() && cats[i].id == id
}

/// The sequence without the categories whose id is `id`, order kept.
pub open spec fn without_id(cats: Seq<CategoryView>, id: Seq<char>) -> Seq<CategoryView>
    decreases cats.len(),
{
    if cats.len() == 0 {
        cats
    } else {
        let rest = without_id(cats.drop_last(), id);
        if cats.last().id == id {
            rest
        } else {
            rest.push(cats.last())
        }
    }
}

/// The sequence with `c` added at the end, unless a category with its id is
/// already there (then it is unchanged, and the first one is kept).
pub open spec fn with_category(cats: Seq<CategoryView>, c: CategoryView) -> Seq<CategoryView> {
    if holds_id(cats, c.id) {
        cats
    } else {
        cats.push(c)
    }
}

/// The views of a vector of categories.
pub open spec fn views_of(cats: Seq<Category>) -> Seq<CategoryView> {
    cats.map_values(|c: Category| c@)
}

/// The mathematical value of a [`Note`].
pub ghost struct NoteView {
    pub id: Seq<char>,
    pub text: Seq<char>,
    pub categories: Seq<CategoryView>,
    pub created: i64,
    pub modified: i64,
}

/// A text note with its categories and its timestamps (seconds since the
/// epoch). The categories form a set: no two share an id.
#[derive(Clone, Debug)]
pub struct Note {
    pub id: String,
    pub text: String,
    pub categories: Vec<Category>,
    pub created: i64,
    pub modified: i64,
}

/// The record that the vector index keeps for a note: its id and its text.
#[derive(Clone, Debug)]
pub struct TextChunk {
    pub id: String,
    pub text: String,
}

impl View for Note {
    type V = NoteView;

    open spec fn view(&self) -> NoteView {
        NoteView {
            id: self.id@,
            text: self.text@,
            categories: views_of(self.categories@),
            created: self.created,
            modified: self.modified,
        }
    }
}

impl PartialEq for Note {
    fn eq(&self, other: &Note) -> (r: bool)
        ensures
            r == (self.id@ == other.id@),
    {
        self.id == other.id
    }
}

impl vstd::std_specs::cmp::PartialEqSpecImpl for Note {
    open spec fn obeys_eq_spec() -> bool {
        true
    }

    open spec fn eq_spec(&self, other: &Note) -> bool {
        self.id@ == other.id@
    }
}

impl Note {
    /// Well-formed: the categories hold each id at most once.
    pub open spec fn wf(&self) -> bool {
        unique_ids(self@.categories)
    }

    /// A note without categories, created and modified now.
    pub fn new(id: &str, text: &str) -> (r: Note)
        ensures
            r.wf(),
            r@.id == id@,
            r@.text == text@,
            r@.categories.len() == 0,
            r@.created == r@.modified,
    {
        let now = now_timestamp();
        Note::hydrate(id, text, Vec::new(), now, now)
    }

    /// Rebuilds a note from stored values.
    pub fn hydrate(id: &str, text: &str, categories: Vec<Category>, created: i64, modified: i64) -> (r: Note)
        requires
            unique_ids(views_of(categories@)),
        ensures
            r.wf(),
            r@ == (NoteView {
                id: id@,
                text: text@,
                categories: views_of(categories@),
                created,
                modified,
            }),
    {
        Note { id: id.to_string(), text: text.to_string(), categories, created, modified }
    }

    pub fn get_id(&self) -> (r: &str)
        ensures
            r@ == self.id@,
    {
        self.id.as_str()
    }

    pub fn get_text(&self) -> (r: &str)
        ensures
            r@ == self.text@,
    {
        self.text.as_str()
    }

    pub fn get_categories(&self) -> (r: &Vec<Category>)
        ensures
            views_of(r@) == self@.categories,
    {
        &self.categories
    }

    pub fn get_created(&self) -> (r: i64)
        ensures
            r == self.created,
    {
        self.created
    }

    pub fn get_modified(&self) -> (r: i64)
        ensures
            r == self.modified,
    {
        self.modified
    }

    /// Whether a category with the same id is attached.
    pub fn has_category(&self, category: &Category) -> (r: bool)
        ensures
            r == holds_id(self@.categories, category.id@),
    {
        self.has_category_id(category.id.as_str())
    }

    /// Whether a category with this id is attached.
    pub fn has_category_id(&self, category_id: &str) -> (r: bool)
        ensures
            r == holds_id(self@.categories, category_id@),
    {
        let mut i: usize = 0;
        while i < self.categories.len()
            invariant
                0 <= i <= self.categories@.len(),
                forall|k: int| 0 <= k < i ==> self@.categories[k].id != category_id@,
            decreases self.categories@.len() - i,
        {
            if same_text(self.categories[i].id.as_str(), category_id) {
                assert(self@.categories[i as int].id == category_id@);
                return true;
            }
            i = i + 1;
        }
        false
    }

    /// Attaches the category, unless one with its id is already attached.
    pub fn add_category(&mut self, category: Category)
        requires
            old(self).wf(),
        ensures
            final(self).wf(),
            final(self)@ == (NoteView {
                categories: with_category(old(self)@.categories, category@),
                ..old(self)@
            }),
    {
        if !self.has_category(&category) {
            let ghost before = self.categories@;
            self.categories.push(category);
            assert(views_of(self.categories@) =~= views_of(before).push(category@));
        }
    }

    /// Detaches the category with the id of `category`, if attached.
    pub fn remove_category(&mut self, category: Category)
        requires
            old(self).wf(),
        ensures
            final(self).wf(),
            final(self)@ == (NoteView {
                categories: without_id(old(self)@.categories, category.id@),
                ..old(self)@
            }),
    {
        self.remove_category_by_id(category.id.as_str());
    }

    /// Detaches every category with this id.
    pub fn remove_category_by_id(&mut self, category_id: &str)
        requires
            old(self).wf(),
        ensures
            final(self).wf(),
            final(self)@ == (NoteView {
                categories: without_id(old(self)@.categories, category_id@),
                ..old(self)@
            }),
    {
        let ghost all = old(self)@.categories;
        let mut kept: Vec<Category> = Vec::new();
        let mut i: usize = 0;
        while i < self.categories.len()
            invariant
                self@ == old(self)@,
                all == self@.categories,
                unique_ids(all),
                0 <= i <= all.len(),
                views_of(kept@) == without_id(all.take(i as int), category_id@),
                forall|k: int| 0 <= k < kept@.len() ==> exists|j: int| 0 <= j < i && all[j] == #[trigger] views_of(kept@)[k] && all[j].id != category_id@,
                unique_ids(views_of(kept@)),
            decreases all.len() - i,
        {
            let c = self.categories[i].copy();
            assert(all.take(i + 1).drop_last() =~= all.take(i as int));
            if !same_text(c.id.as_str(), category_id) {
                let ghost prev = kept@;
                kept.push(c);
                assert(views_of(kept@) =~= views_of(prev).push(all[i as int]));
                assert forall|a: int, b: int| 0 <= a < b < views_of(kept@).len() implies views_of(kept@)[a].id != views_of(kept@)[b].id by {
                    if b == views_of(kept@).len() - 1 {
                        let j = choose|j: int| 0 <= j < i && all[j] == #[trigger] views_of(prev)[a] && all[j].id != category_id@;
                        assert(views_of(kept@)[a] == views_of(prev)[a]);
                        assert(all[j].id != all[i as int].id);
                    } else {
                        assert(views_of(kept@)[a] == views_of(prev)[a]);
                        assert(views_of(kept@)[b] == views_of(prev)[b]);
                    }
                }
                assert forall|k: int| 0 <= k < kept@.len() implies exists|j: int| 0 <= j < i + 1 && all[j] == #[trigger] views_of(kept@)[k] && all[j].id != category_id@ by {
                    if k == kept@.len() - 1 {
                        assert(all[i as int] == views_of(kept@)[k]);
                    } else {
                        assert(views_of(kept@)[k] == views_of(prev)[k]);
                        let j = choose|j: int| 0 <= j < i && all[j] == #[trigger] views_of(prev)[k] && all[j].id != category_id@;
                        assert(all[j] == views_of(kept@)[k]);
                    }
                }
            }
            i = i + 1;
        }
        assert(all.take(all.len() as int) =~= all);
        self.categories = kept;
    }

    /// A copy with the same view.
    pub fn copy(&self) -> (r: Note)
        ensures
            r@ == self@,
    {
        let mut cats: Vec<Category> = Vec::new();
        let mut i: usize = 0;
        while i < self.categories.len()
            invariant
                0 <= i <= self.categories@.len(),
                views_of(cats@) == self@.categories.take(i as int),
            decreases self.categories@.len() - i,
        {
            let ghost prev = cats@;
            let c = self.categories[i].copy();
            cats.push(c);
            assert(views_of(cats@) =~= views_of(prev).push(c@));
            assert(self@.categories.take(i + 1) =~= self@.categories.take(i as int).push(
                self@.categories[i as int],
            ));
            i = i + 1;
        }
        assert(self@.categories.take(self.categories@.len() as int) =~= self@.categories);
        Note {
            id: self.id.clone(),
            text: self.text.clone(),
            categories: cats,
            created: self.created,
            modified: self.modified,
        }
    }

    pub fn set_modified(&mut self, timestamp: i64)
        ensures
            final(self)@ == (NoteView { modified: timestamp, ..old(self)@ }),
    {
        self.modified = timestamp;
    }

    /// The vector-index record for this note: its id and its text.
    pub fn to_text_chunk(&self) -> (r: TextChunk)
        ensures
            r.id@ == self.id@,
            r.text@ == self.text@,
    {
        TextChunk { id: self.id.clone(), text: self.text.clone() }
    }
}

} // verus!
