use vstd::prelude::*;

use crate::note::{Note, NoteView};
use crate::text::same_text;

verus! {

/// A distance reported by the vector index (lower is more similar): a
/// non-negative `f32`, held by its IEEE-754 bit pattern. On non-negative
/// floats the order of the bit patterns, read as unsigned integers, is the
/// numeric order, so distances are compared by `bits`.
#[derive(Clone, Copy, Debug, PartialEq, Eq, Structural)]
pub struct Distance {
    pub bits: u32,
}

impl Distance {
    pub fn from_bits(bits: u32) -> (r: Distance)
        ensures
            r.bits == bits,
    {
        Distance { bits }
    }

    pub fn to_bits(&self) -> (r: u32)
        ensures
            r == self.bits,
    {
        self.bits
    }
}

/// Results a similarity search returns when the caller gives no limit.
pub const SIMILARS_DEFAULT_LIMIT: usize = 3;

/// The bit pattern of the `f32` value 0.01, the default threshold.
pub const SIMILARS_DEFAULT_THRESHOLD_BITS: u32 = 0x3c23d70a;

/// One nearest-neighbour hit of the vector index.
#[derive(Clone, Debug)]
pub struct SimilarHit {
    pub id: String,
    pub text: String,
    pub distance: Distance,
}

pub ghost struct HitView {
    pub id: Seq<char>,
    pub distance: u32,
}

impl View for SimilarHit {
    type V = HitView;

    open spec fn view(&self) -> HitView {
        HitView { id: self.id@, distance: self.distance.bits }
    }
}

pub open spec fn hit_views(hits: Seq<SimilarHit>) -> Seq<HitView> {
    hits.map_values(|h: SimilarHit| h@)
}

/// The hits whose id is not `exclude`, order kept.
pub open spec fn other_hits(hits: Seq<HitView>, exclude: Seq<char>) -> Seq<HitView>
    decreases hits.len(),
{
    if hits.len() == 0 {
        hits
    } else {
        let rest = other_hits(hits.drop_last(), exclude);
        if hits.last().id == exclude {
            rest
        } else {
            rest.push(hits.last())
        }
    }
}

/// `h` inserted into `s` after every hit that is not farther than it.
pub open spec fn insert_by_distance(s: Seq<HitView>, h: HitView) -> Seq<HitView>
    decreases s.len(),
{
    if s.len() == 0 {
        seq![h]
    } else if s.last().distance <= h.distance {
        s.push(h)
    } else {
        insert_by_distance(s.drop_last(), h).push(s.last())
    }
}

/// The hits ordered by ascending distance; hits at equal distance keep their
/// order.
pub open spec fn sort_by_distance(s: Seq<HitView>) -> Seq<HitView>
    decreases s.len(),
{
    if s.len() == 0 {
        s
    } else {
        insert_by_distance(sort_by_distance(s.drop_last()), s.last())
    }
}

pub open spec fn ascending(s: Seq<HitView>) -> bool {
    forall|i: int, j: int| 0 <= i < j < s.len() ==> s[i].distance <= s[j].distance
}

/// The hits strictly below the threshold, order kept.
pub open spec fn below_threshold(s: Seq<HitView>, threshold: u32) -> Seq<HitView>
    decreases s.len(),
{
    if s.len() == 0 {
        s
    } else {
        let rest = below_threshold(s.drop_last(), threshold);
        if s.last().distance < threshold {
            rest.push(s.last())
        } else {
            rest
        }
    }
}

pub open spec fn min_nat(a: nat, b: nat) -> nat {
    if a < b {
        a
    } else {
        b
    }
}

/// The candidates of a similarity search: the `limit` nearest hits other than
/// `exclude`, by ascending distance, of which those strictly below `threshold`.
pub open spec fn candidates(
    hits: Seq<HitView>,
    exclude: Seq<char>,
    limit: nat,
    threshold: u32,
) -> Seq<HitView> {
    let near = sort_by_distance(other_hits(hits, exclude));
    below_threshold(near.take(min_nat(limit, near.len()) as int), threshold)
}

/// The last note of `notes` with this id, as a map built from them would hold.
pub open spec fn find_note(notes: Seq<NoteView>, id: Seq<char>) -> Option<NoteView>
    decreases notes.len(),
{
    if notes.len() == 0 {
        None
    } else if notes.last().id == id {
        Some(notes.last())
    } else {
        find_note(notes.drop_last(), id)
    }
}

/// Each candidate paired with its note, in candidate order; a candidate whose
/// id no note has is dropped.
pub open spec fn resolve(cands: Seq<HitView>, notes: Seq<NoteView>) -> Seq<(NoteView, u32)>
    decreases cands.len(),
{
    if cands.len() == 0 {
        Seq::empty()
    } else {
        let rest = resolve(cands.drop_last(), notes);
        match find_note(notes, cands.last().id) {
            Some(n) => rest.push((n, cands.last().distance)),
            None => rest,
        }
    }
}

pub open spec fn note_views(notes: Seq<Note>) -> Seq<NoteView> {
    notes.map_values(|n: Note| n@)
}

pub open spec fn pair_views(pairs: Seq<(Note, Distance)>) -> Seq<(NoteView, u32)> {
    pairs.map_values(|p: (Note, Distance)| (p.0@, p.1.bits))
}

proof fn lemma_insert_position(s: Seq<HitView>, h: HitView, p: int)
    requires
        0 <= p <= s.len(),
        p == 0 || s[p - 1].distance <= h.distance,
        forall|k: int| p <= k < s.len() ==> s[k].distance > h.distance,
    ensures
        insert_by_distance(s, h) == s.take(p).push(h) + s.skip(p),
    decreases s.len(),
{
    if s.len() == 0 {
        assert(s.take(p).push(h) + s.skip(p) =~= seq![h]);
    } else if s.last().distance <= h.distance {
        assert(p == s.len());
        assert(s.take(p).push(h) + s.skip(p) =~= s.push(h));
    } else {
        let d = s.drop_last();
        lemma_insert_position(d, h, p);
        assert(s.take(p).push(h) + s.skip(p) =~= (d.take(p).push(h) + d.skip(p)).push(s.last()));
    }
}

proof fn lemma_insert_ascending(s: Seq<HitView>, h: HitView)
    requires
        ascending(s),
    ensures
        ascending(insert_by_distance(s, h)),
        insert_by_distance(s, h).len() == s.len() + 1,
        forall|x: HitView| #[trigger] insert_by_distance(s, h).contains(x) ==> s.contains(x) || x == h,
    decreases s.len(),
{
    if s.len() == 0 {
        assert forall|x: HitView| #[trigger] insert_by_distance(s, h).contains(x) implies s.contains(x) || x == h by {
            let k = choose|k: int| 0 <= k < insert_by_distance(s, h).len() && insert_by_distance(s, h)[k] == x;
        }
    } else if s.last().distance <= h.distance {
        let r = s.push(h);
        assert forall|x: HitView| #[trigger] r.contains(x) implies s.contains(x) || x == h by {
            let k = choose|k: int| 0 <= k < r.len() && r[k] == x;
            if k < s.len() {
                assert(s[k] == x);
            }
        }
    } else {
        let d = s.drop_last();
        lemma_insert_ascending(d, h);
        let i = insert_by_distance(d, h);
        let r = i.push(s.last());
        assert forall|a: int, b: int| 0 <= a < b < r.len() implies r[a].distance <= r[b].distance by {
            if b == r.len() - 1 {
                assert(i.contains(r[a]));
                if r[a] != h {
                    assert(d.contains(r[a]));
                    let k = choose|k: int| 0 <= k < d.len() && d[k] == r[a];
                    assert(s[k] == r[a]);
                }
            }
        }
        assert forall|x: HitView| #[trigger] r.contains(x) implies s.contains(x) || x == h by {
            let k = choose|k: int| 0 <= k < r.len() && r[k] == x;
            if k < i.len() {
                assert(i.contains(x));
                if x != h {
                    let m = choose|m: int| 0 <= m < d.len() && d[m] == x;
                    assert(s[m] == x);
                }
            } else {
                assert(s[s.len() - 1] == x);
            }
        }
    }
}

/// Sorting by distance gives an ascending sequence of the same length.
pub proof fn lemma_sort_ascending(s: Seq<HitView>)
    ensures
        ascending(sort_by_distance(s)),
        sort_by_distance(s).len() == s.len(),
        forall|x: HitView| #[trigger] sort_by_distance(s).contains(x) ==> s.contains(x),
    decreases s.len(),
{
    if s.len() > 0 {
        let d = s.drop_last();
        lemma_sort_ascending(d);
        lemma_insert_ascending(sort_by_distance(d), s.last());
        assert forall|x: HitView| #[trigger] sort_by_distance(s).contains(x) implies s.contains(x) by {
            if x != s.last() {
                assert(sort_by_distance(d).contains(x));
                let k = choose|k: int| 0 <= k < d.len() && d[k] == x;
                assert(s[k] == x);
            } else {
                assert(s[s.len() - 1] == x);
            }
        }
    }
}

/// Excluding an id leaves no hit with that id.
pub proof fn lemma_other_hits_exclude(hits: Seq<HitView>, exclude: Seq<char>)
    ensures
        forall|k: int| 0 <= k < other_hits(hits, exclude).len() ==> #[trigger] other_hits(hits, exclude)[k].id != exclude,
        forall|x: HitView| #[trigger] other_hits(hits, exclude).contains(x) ==> hits.contains(x),
    decreases hits.len(),
{
    if hits.len() > 0 {
        let d = hits.drop_last();
        lemma_other_hits_exclude(d, exclude);
        let r = other_hits(hits, exclude);
        assert forall|x: HitView| #[trigger] r.contains(x) implies hits.contains(x) by {
            let k = choose|k: int| 0 <= k < r.len() && r[k] == x;
            if k < other_hits(d, exclude).len() {
                assert(other_hits(d, exclude).contains(x));
                let m = choose|m: int| 0 <= m < d.len() && d[m] == x;
                assert(hits[m] == x);
            } else {
                assert(hits[hits.len() - 1] == x);
            }
        }
    }
}

/// Filtering by threshold keeps an ascending order, keeps only hits below the
/// threshold, and keeps only hits of the input.
pub proof fn lemma_below_threshold(s: Seq<HitView>, threshold: u32)
    ensures
        ascending(s) ==> ascending(below_threshold(s, threshold)),
        forall|k: int| 0 <= k < below_threshold(s, threshold).len() ==> #[trigger] below_threshold(s, threshold)[k].distance < threshold,
        forall|x: HitView| #[trigger] below_threshold(s, threshold).contains(x) ==> s.contains(x),
    decreases s.len(),
{
    if s.len() > 0 {
        let d = s.drop_last();
        lemma_below_threshold(d, threshold);
        let r = below_threshold(s, threshold);
        let rd = below_threshold(d, threshold);
        assert forall|x: HitView| #[trigger] r.contains(x) implies s.contains(x) by {
            let k = choose|k: int| 0 <= k < r.len() && r[k] == x;
            if k < rd.len() {
                assert(rd.contains(x));
                let m = choose|m: int| 0 <= m < d.len() && d[m] == x;
                assert(s[m] == x);
            } else {
                assert(s[s.len() - 1] == x);
            }
        }
        if ascending(s) {
            assert(ascending(d));
            assert forall|a: int, b: int| 0 <= a < b < r.len() implies r[a].distance <= r[b].distance by {
                if b == rd.len() && s.last().distance < threshold {
                    assert(rd.contains(r[a]));
                    let m = choose|m: int| 0 <= m < d.len() && d[m] == r[a];
                    assert(s[m] == r[a]);
                }
            }
        }
    }
}

/// Each resolved pair comes from a candidate with the note's id, and pairs
/// keep the candidates' order.
pub proof fn lemma_resolve(cands: Seq<HitView>, notes: Seq<NoteView>)
    ensures
        forall|k: int| 0 <= k < resolve(cands, notes).len() ==> cands.contains(
            HitView { id: (#[trigger] resolve(cands, notes)[k]).0.id, distance: resolve(cands, notes)[k].1 },
        ),
        ascending(cands) ==> forall|a: int, b: int| 0 <= a < b < resolve(cands, notes).len() ==> (
        #[trigger] resolve(cands, notes)[a]).1 <= (#[trigger] resolve(cands, notes)[b]).1,
    decreases cands.len(),
{
    if cands.len() > 0 {
        let d = cands.drop_last();
        lemma_resolve(d, notes);
        lemma_find_note(notes, cands.last().id);
        let r = resolve(cands, notes);
        let rd = resolve(d, notes);
        assert forall|k: int| 0 <= k < r.len() implies cands.contains(
            HitView { id: (#[trigger] r[k]).0.id, distance: r[k].1 },
        ) by {
            if k < rd.len() {
                assert(r[k] == rd[k]);
                let x = HitView { id: rd[k].0.id, distance: rd[k].1 };
                assert(d.contains(x));
                let m = choose|m: int| 0 <= m < d.len() && d[m] == x;
                assert(cands[m] == x);
            } else {
                assert(cands[cands.len() - 1] == HitView { id: r[k].0.id, distance: r[k].1 });
            }
        }
        if ascending(cands) {
            assert(ascending(d));
            assert forall|a: int, b: int| 0 <= a < b < r.len() implies (#[trigger] r[a]).1 <= (
            #[trigger] r[b]).1 by {
                if b == rd.len() {
                    assert(r[a] == rd[a]);
                    let x = HitView { id: rd[a].0.id, distance: rd[a].1 };
                    assert(d.contains(x));
                    let m = choose|m: int| 0 <= m < d.len() && d[m] == x;
                    assert(cands[m] == x);
                } else {
                    assert(r[a] == rd[a]);
                    assert(r[b] == rd[b]);
                }
            }
        }
    }
}

/// The note that [`find_note`] finds has the id looked for.
pub proof fn lemma_find_note(notes: Seq<NoteView>, id: Seq<char>)
    ensures
        find_note(notes, id) matches Some(n) ==> n.id == id,
    decreases notes.len(),
{
    if notes.len() > 0 {
        lemma_find_note(notes.drop_last(), id);
    }
}

/// The hit's view, by a copy of the hit.
fn copy_hit(h: &SimilarHit) -> (r: SimilarHit)
    ensures
        r@ == h@,
{
    SimilarHit { id: h.id.clone(), text: h.text.clone(), distance: h.distance }
}

/// The `limit` nearest hits other than `exclude`, ordered by ascending
/// distance, keeping those strictly below `threshold`.
pub fn select_candidates(hits: &Vec<SimilarHit>, exclude: &str, limit: usize, threshold: Distance) -> (r: Vec<SimilarHit>)
    ensures
        hit_views(r@) == candidates(hit_views(hits@), exclude@, limit as nat, threshold.bits),
{
    let ghost all = hit_views(hits@);
    // the hits other than `exclude`, kept sorted by distance as they come
    let mut sorted: Vec<SimilarHit> = Vec::new();
    let mut i: usize = 0;
    while i < hits.len()
        invariant
            0 <= i <= hits@.len(),
            all == hit_views(hits@),
            hit_views(sorted@) == sort_by_distance(other_hits(all.take(i as int), exclude@)),
        decreases hits@.len() - i,
    {
        assert(all.take(i + 1).drop_last() =~= all.take(i as int));
        assert(all.take(i + 1).last() == hits@[i as int]@);
        if !same_text(hits[i].id.as_str(), exclude) {
            let h = copy_hit(&hits[i]);
            let ghost s = hit_views(sorted@);
            let ghost o = other_hits(all.take(i as int), exclude@);
            assert(other_hits(all.take(i + 1), exclude@) == o.push(h@));
            assert(o.push(h@).drop_last() =~= o);
            proof {
                lemma_sort_ascending(other_hits(all.take(i as int), exclude@));
            }
            let mut p: usize = sorted.len();
            while p > 0 && sorted[p - 1].distance.bits > h.distance.bits
                invariant
                    0 <= p <= s.len(),
                    hit_views(sorted@) == s,
                    ascending(s),
                    forall|k: int| p <= k < s.len() ==> s[k].distance > h.distance.bits,
                decreases p,
            {
                p = p - 1;
            }
            proof {
                lemma_insert_position(s, h@, p as int);
            }
            sorted.insert(p, h);
            assert(hit_views(sorted@) =~= s.take(p as int).push(h@) + s.skip(p as int));
        }
        i = i + 1;
    }
    assert(all.take(hits@.len() as int) =~= all);
    let ghost near = hit_views(sorted@);
    let n: usize = if limit < sorted.len() {
        limit
    } else {
        sorted.len()
    };
    let mut out: Vec<SimilarHit> = Vec::new();
    let mut j: usize = 0;
    while j < n
        invariant
            0 <= j <= n <= sorted@.len(),
            near == hit_views(sorted@),
            hit_views(out@) == below_threshold(near.take(j as int), threshold.bits),
        decreases n - j,
    {
        assert(near.take(j + 1).drop_last() =~= near.take(j as int));
        if sorted[j].distance.bits < threshold.bits {
            out.push(copy_hit(&sorted[j]));
        }
        assert(hit_views(out@) =~= below_threshold(near.take(j + 1), threshold.bits));
        j = j + 1;
    }
    out
}

/// The index of the last note of `notes` with this id.
pub fn find_note_index(notes: &Vec<Note>, id: &str) -> (r: Option<usize>)
    ensures
        match r {
            Some(k) => k < notes@.len() && find_note(note_views(notes@), id@) == Some(notes@[k as int]@),
            None => find_note(note_views(notes@), id@) is None,
        },
{
    let ghost all = note_views(notes@);
    let mut k: usize = notes.len();
    assert(all.take(k as int) =~= all);
    while k > 0
        invariant
            0 <= k <= notes@.len(),
            all == note_views(notes@),
            find_note(all, id@) == find_note(all.take(k as int), id@),
        decreases k,
    {
        assert(all.take(k as int).drop_last() =~= all.take(k - 1));
        if same_text(notes[k - 1].id.as_str(), id) {
            return Some(k - 1);
        }
        k = k - 1;
    }
    None
}

/// Pairs each candidate with the note of its id, in candidate order, dropping
/// candidates that no note has.
pub fn resolve_candidates(cands: &Vec<SimilarHit>, notes: &Vec<Note>) -> (r: Vec<(Note, Distance)>)
    ensures
        pair_views(r@) == resolve(hit_views(cands@), note_views(notes@)),
{
    let ghost cs = hit_views(cands@);
    let mut out: Vec<(Note, Distance)> = Vec::new();
    let mut i: usize = 0;
    while i < cands.len()
        invariant
            0 <= i <= cands@.len(),
            cs == hit_views(cands@),
            pair_views(out@) == resolve(cs.take(i as int), note_views(notes@)),
        decreases cands@.len() - i,
    {
        assert(cs.take(i + 1).drop_last() =~= cs.take(i as int));
        assert(cs.take(i + 1).last() == cands@[i as int]@);
        match find_note_index(notes, cands[i].id.as_str()) {
            Some(k) => {
                let n = notes[k].copy();
                out.push((n, cands[i].distance));
            },
            None => {},
        }
        assert(pair_views(out@) =~= resolve(cs.take(i + 1), note_views(notes@)));
        i = i + 1;
    }
    assert(cs.take(cands@.len() as int) =~= cs);
    out
}

} // verus!
