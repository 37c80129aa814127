use vstd::prelude::*;

use crate::note::Note;
use crate::text::{chars_of, same_text, string_of};

verus! {

/// Index of the first `'\n'` of `t`, or its length when there is none.
pub open spec fn line_break(t: Seq<char>) -> nat
    decreases t.len(),
{
    if t.len() == 0 {
        0
    } else if t[0] == '\n' {
        0
    } else {
        1 + line_break(t.drop_first())
    }
}

/// The first line of a text, as `str::lines` gives it: the characters before
/// the first `'\n'`, without a `'\r'` that stands just before that `'\n'`.
/// A text without `'\n'` is one line; an empty text gives an empty line.
pub open spec fn first_line(t: Seq<char>) -> Seq<char> {
    let k = line_break(t) as int;
    if k < t.len() && k > 0 && t[k - 1] == '\r' {
        t.take(k - 1)
    } else {
        t.take(k)
    }
}

pub open spec fn is_title_padding(c: char) -> bool {
    c == '#' || c == ' '
}

/// The sequence without its leading `'#'` and `' '` characters.
pub open spec fn strip_padding(s: Seq<char>) -> Seq<char>
    decreases s.len(),
{
    if s.len() > 0 && is_title_padding(s[0]) {
        strip_padding(s.drop_first())
    } else {
        s
    }
}

/// Characters that may stand in a file name as they are.
pub open spec fn is_name_char(c: char) -> bool {
    ('a' <= c && c <= 'z') || ('A' <= c && c <= 'Z') || ('0' <= c && c <= '9') || c == '-' || c
        == '_'
}

pub open spec fn name_char(c: char) -> char {
    if is_name_char(c) {
        c
    } else {
        '_'
    }
}

/// Every character outside `[a-zA-Z0-9_-]` replaced by `'_'`.
pub open spec fn sanitize(s: Seq<char>) -> Seq<char> {
    s.map_values(|c: char| name_char(c))
}

/// Every run of `'_'` reduced to one `'_'`.
pub open spec fn collapse_underscores(s: Seq<char>) -> Seq<char>
    decreases s.len(),
{
    if s.len() == 0 {
        s
    } else {
        let rest = collapse_underscores(s.drop_last());
        if s.last() == '_' && rest.len() > 0 && rest.last() == '_' {
            rest
        } else {
            rest.push(s.last())
        }
    }
}

/// Longest title length kept as it is.
pub const MAX_TITLE_LEN: usize = 100;

/// Characters kept from each end of a title that is too long.
pub const TITLE_END_LEN: usize = 50;

/// A title longer than [`MAX_TITLE_LEN`] becomes its first and its last
/// [`TITLE_END_LEN`] characters joined by `"..."`.
pub open spec fn shorten(s: Seq<char>) -> Seq<char> {
    if s.len() > MAX_TITLE_LEN {
        s.take(TITLE_END_LEN as int) + seq!['.', '.', '.'] + s.skip(s.len() - TITLE_END_LEN)
    } else {
        s
    }
}

/// The file-name title of a note text.
pub open spec fn title_of(text: Seq<char>) -> Seq<char> {
    shorten(collapse_underscores(sanitize(strip_padding(first_line(text)))))
}

proof fn lemma_line_break(t: Seq<char>, i: int)
    requires
        0 <= i <= t.len(),
        forall|j: int| 0 <= j < i ==> t[j] != '\n',
        i == t.len() || t[i] == '\n',
    ensures
        line_break(t) == i,
    decreases i,
{
    if i > 0 {
        let rest = t.drop_first();
        assert forall|j: int| 0 <= j < i - 1 implies rest[j] != '\n' by {
            assert(rest[j] == t[j + 1]);
        }
        lemma_line_break(rest, i - 1);
    }
}

/// Derives a file-name title from the first line of a note text: leading `'#'`
/// and `' '` stripped, characters outside `[a-zA-Z0-9_-]` replaced by `'_'`,
/// runs of `'_'` collapsed, and a title over 100 characters cut to its first
/// and last 50 joined by `"..."`.
pub fn note_title(text: &str) -> (r: String)
    ensures
        r@ == title_of(text@),
{
    let chars = chars_of(text);
    let ghost t = chars@;
    let mut k: usize = 0;
    while k < chars.len() && chars[k] != '\n'
        invariant
            0 <= k <= t.len(),
            chars@ == t,
            forall|j: int| 0 <= j < k ==> t[j] != '\n',
        decreases t.len() - k,
    {
        k = k + 1;
    }
    proof {
        lemma_line_break(t, k as int);
    }
    let end: usize = if k < chars.len() && k > 0 && chars[k - 1] == '\r' {
        k - 1
    } else {
        k
    };
    assert(t.subrange(0, end as int) == first_line(t));

    let mut start: usize = 0;
    while start < end && (chars[start] == '#' || chars[start] == ' ')
        invariant
            0 <= start <= end <= t.len(),
            chars@ == t,
            strip_padding(t.subrange(start as int, end as int)) == strip_padding(first_line(t)),
        decreases end - start,
    {
        assert(t.subrange(start as int, end as int).drop_first() =~= t.subrange(
            start + 1,
            end as int,
        ));
        start = start + 1;
    }
    assert(strip_padding(t.subrange(start as int, end as int)) == t.subrange(
        start as int,
        end as int,
    ));
    let ghost line = t.subrange(start as int, end as int);

    let mut out: Vec<char> = Vec::new();
    let mut i: usize = start;
    while i < end
        invariant
            start <= i <= end <= t.len(),
            chars@ == t,
            line == t.subrange(start as int, end as int),
            out@ == collapse_underscores(sanitize(t.subrange(start as int, i as int))),
        decreases end - i,
    {
        let c = chars[i];
        let m = if ('a' <= c && c <= 'z') || ('A' <= c && c <= 'Z') || ('0' <= c && c <= '9')
            || c == '-' || c == '_' {
            c
        } else {
            '_'
        };
        let ghost next = sanitize(t.subrange(start as int, i + 1));
        assert(next.drop_last() =~= sanitize(t.subrange(start as int, i as int)));
        assert(next.last() == m);
        let n = out.len();
        if !(m == '_' && n > 0 && out[n - 1] == '_') {
            out.push(m);
        }
        i = i + 1;
    }
    assert(t.subrange(start as int, end as int) =~= line);
    let ghost full = out@;
    assert(full == collapse_underscores(sanitize(line)));
    if out.len() > MAX_TITLE_LEN {
        let len = out.len();
        let mut cut: Vec<char> = Vec::new();
        let mut j: usize = 0;
        while j < TITLE_END_LEN
            invariant
                0 <= j <= TITLE_END_LEN,
                out@ == full,
                len == full.len(),
                len > MAX_TITLE_LEN,
                cut@ == full.take(j as int),
            decreases TITLE_END_LEN - j,
        {
            cut.push(out[j]);
            assert(full.take(j + 1) =~= full.take(j as int).push(full[j as int]));
            j = j + 1;
        }
        cut.push('.');
        cut.push('.');
        cut.push('.');
        let ghost head = cut@;
        assert(head =~= full.take(TITLE_END_LEN as int) + seq!['.', '.', '.']);
        let mut j: usize = len - TITLE_END_LEN;
        while j < len
            invariant
                len - TITLE_END_LEN <= j <= len,
                len > MAX_TITLE_LEN,
                out@ == full,
                len == full.len(),
                cut@ == head + full.subrange(len - TITLE_END_LEN, j as int),
            decreases len - j,
        {
            cut.push(out[j]);
            assert(full.subrange(len - TITLE_END_LEN, j + 1) =~= full.subrange(
                len - TITLE_END_LEN,
                j as int,
            ).push(full[j as int]));
            j = j + 1;
        }
        assert(full.subrange(len - TITLE_END_LEN, len as int) =~= full.skip(
            len - TITLE_END_LEN,
        ));
        string_of(&cut)
    } else {
        string_of(&out)
    }
}

/// The decimal digit for `d < 10`.
pub open spec fn digit_char(d: nat) -> char {
    if d == 0 {
        '0'
    } else if d == 1 {
        '1'
    } else if d == 2 {
        '2'
    } else if d == 3 {
        '3'
    } else if d == 4 {
        '4'
    } else if d == 5 {
        '5'
    } else if d == 6 {
        '6'
    } else if d == 7 {
        '7'
    } else if d == 8 {
        '8'
    } else {
        '9'
    }
}

/// The decimal form of `n`, without leading zeros.
pub open spec fn decimal(n: nat) -> Seq<char>
    decreases n,
{
    if n < 10 {
        seq![digit_char(n)]
    } else {
        decimal(n / 10).push(digit_char(n % 10))
    }
}

fn digit(d: usize) -> (c: char)
    requires
        d < 10,
    ensures
        c == digit_char(d as nat),
{
    if d == 0 {
        '0'
    } else if d == 1 {
        '1'
    } else if d == 2 {
        '2'
    } else if d == 3 {
        '3'
    } else if d == 4 {
        '4'
    } else if d == 5 {
        '5'
    } else if d == 6 {
        '6'
    } else if d == 7 {
        '7'
    } else if d == 8 {
        '8'
    } else {
        '9'
    }
}

/// The decimal digits of `n`.
pub fn decimal_chars(n: usize) -> (r: Vec<char>)
    ensures
        r@ == decimal(n as nat),
    decreases n,
{
    if n < 10 {
        let mut v: Vec<char> = Vec::new();
        v.push(digit(n));
        v
    } else {
        let mut v = decimal_chars(n / 10);
        v.push(digit(n % 10));
        v
    }
}

/// `title` followed by the note-file extension.
pub open spec fn file_name(title: Seq<char>) -> Seq<char> {
    title + seq!['.', 'm', 'd']
}

/// The name for the note at `index` whose title is taken already.
pub open spec fn dupe_file_name(title: Seq<char>, index: nat) -> Seq<char> {
    file_name(title + seq!['-', 'd', 'u', 'p', 'e', '_'] + decimal(index))
}

/// The file names of an export batch, for notes whose titles are `titles` in
/// listing order: a note takes `<title>.md`, or `<title>-dupe_<index>.md` when
/// an earlier note of the batch took that name.
pub open spec fn export_names(titles: Seq<Seq<char>>) -> Seq<Seq<char>>
    decreases titles.len(),
{
    if titles.len() == 0 {
        Seq::empty()
    } else {
        let prev = export_names(titles.drop_last());
        let index = (titles.len() - 1) as nat;
        if prev.contains(file_name(titles.last())) {
            prev.push(dupe_file_name(titles.last(), index))
        } else {
            prev.push(file_name(titles.last()))
        }
    }
}

/// An export names each note once.
pub proof fn lemma_export_names_len(titles: Seq<Seq<char>>)
    ensures
        export_names(titles).len() == titles.len(),
    decreases titles.len(),
{
    if titles.len() > 0 {
        lemma_export_names_len(titles.drop_last());
    }
}

/// The titles of a sequence of notes.
pub open spec fn titles_of(notes: Seq<Note>) -> Seq<Seq<char>> {
    notes.map_values(|n: Note| title_of(n.text@))
}

/// The file name `<title>.md`.
pub fn title_file_name(title: &str) -> (r: String)
    ensures
        r@ == file_name(title@),
{
    let mut v = chars_of(title);
    v.push('.');
    v.push('m');
    v.push('d');
    string_of(&v)
}

/// The file name `<title>-dupe_<index>.md`.
pub fn dupe_title_file_name(title: &str, index: usize) -> (r: String)
    ensures
        r@ == dupe_file_name(title@, index as nat),
{
    let mut v = chars_of(title);
    v.push('-');
    v.push('d');
    v.push('u');
    v.push('p');
    v.push('e');
    v.push('_');
    let ghost head = v@;
    let digits = decimal_chars(index);
    let mut i: usize = 0;
    while i < digits.len()
        invariant
            0 <= i <= digits@.len(),
            v@ == head + digits@.take(i as int),
        decreases digits@.len() - i,
    {
        v.push(digits[i]);
        assert(digits@.take(i + 1) =~= digits@.take(i as int).push(digits@[i as int]));
        i = i + 1;
    }
    assert(digits@.take(digits@.len() as int) =~= digits@);
    v.push('.');
    v.push('m');
    v.push('d');
    assert(v@ =~= dupe_file_name(title@, index as nat));
    string_of(&v)
}

/// Whether some name of `names` equals `name`.
fn name_taken(names: &Vec<String>, name: &str) -> (r: bool)
    ensures
        r == names@.map_values(|s: String| s@).contains(name@),
{
    let ghost views = names@.map_values(|s: String| s@);
    let mut i: usize = 0;
    while i < names.len()
        invariant
            0 <= i <= names@.len(),
            views == names@.map_values(|s: String| s@),
            forall|k: int| 0 <= k < i ==> views[k] != name@,
        decreases names@.len() - i,
    {
        if same_text(names[i].as_str(), name) {
            assert(views[i as int] == name@);
            return true;
        }
        i = i + 1;
    }
    false
}

/// The file names under which an export writes `notes`, in listing order.
pub fn export_file_names(notes: &Vec<Note>) -> (r: Vec<String>)
    ensures
        r@.map_values(|s: String| s@) == export_names(titles_of(notes@)),
{
    let ghost all = titles_of(notes@);
    let mut names: Vec<String> = Vec::new();
    let mut i: usize = 0;
    while i < notes.len()
        invariant
            0 <= i <= notes@.len(),
            all == titles_of(notes@),
            names@.map_values(|s: String| s@) == export_names(all.take(i as int)),
        decreases notes@.len() - i,
    {
        let title = note_title(notes[i].text.as_str());
        let base = title_file_name(title.as_str());
        let ghost prev = names@.map_values(|s: String| s@);
        assert(all.take(i + 1).drop_last() =~= all.take(i as int));
        assert(all.take(i + 1).last() == title@);
        if name_taken(&names, base.as_str()) {
            let dupe = dupe_title_file_name(title.as_str(), i);
            names.push(dupe);
        } else {
            names.push(base);
        }
        assert(names@.map_values(|s: String| s@) =~= export_names(all.take(i + 1)));
        i = i + 1;
    }
    assert(all.take(notes@.len() as int) =~= all);
    names
}

/// The name of the directory that an export made at `timestamp` creates.
pub fn export_dir_name(timestamp: &str) -> (r: String)
    ensures
        r@ == seq!['k', 'n', 'o', 'w', 'l', 'i', 'n', 'g', '_', 'e', 'x', 'p', 'o', 'r', 't', '_']
            + timestamp@,
{
    let mut v: Vec<char> = Vec::new();
    v.push('k');
    v.push('n');
    v.push('o');
    v.push('w');
    v.push('l');
    v.push('i');
    v.push('n');
    v.push('g');
    v.push('_');
    v.push('e');
    v.push('x');
    v.push('p');
    v.push('o');
    v.push('r');
    v.push('t');
    v.push('_');
    let ghost head = v@;
    let rest = chars_of(timestamp);
    let mut i: usize = 0;
    while i < rest.len()
        invariant
            0 <= i <= rest@.len(),
            v@ == head + rest@.take(i as int),
        decreases rest@.len() - i,
    {
        v.push(rest[i]);
        assert(rest@.take(i + 1) =~= rest@.take(i as int).push(rest@[i as int]));
        i = i + 1;
    }
    assert(rest@.take(rest@.len() as int) =~= rest@);
    assert(v@ =~= seq!['k', 'n', 'o', 'w', 'l', 'i', 'n', 'g', '_', 'e', 'x', 'p', 'o', 'r', 't', '_']
        + timestamp@);
    string_of(&v)
}

} // verus!
