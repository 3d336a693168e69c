//! The notes held in memory and what each storage operation does to them.
//! Reading, writing and moving files is the caller's part: these functions
//! take what the file system answered (a file exists, a write failed) and
//! decide the rest.
use vstd::prelude::*;
use crate::config::Config;
use crate::note::{copy_string, dash_slashes, file_name_for, texts, untitled, Note};
use crate::util::{fields_in_range, stamp_text, timestamp_title_with_seconds, DateFields};
use crate::order::{lemma_stable_sort_desc, lemma_stable_sort_map, sorted_desc_by, stable_sort, stable_sort_vec};
use crate::path::{extension, file_name, join, join_exec};
use crate::text::{
    chars_of, decimal, decimal_exec, eq_ignore_ascii_case, eq_ignore_ascii_case_exec, same_chars,
    string_of, trim, trim_chars,
};

verus! {

/// The notes directory's subdirectory that holds deleted notes.
pub const TRASH_DIR_NAME: &'static str = ".trash";

/// Everything a note holds, as plain values: id, title, path, content,
/// modification and creation dates, tags.
pub type NoteView = (Seq<char>, Seq<char>, Seq<char>, Seq<char>, i64, i64, Seq<Seq<char>>);

/// The plain values of a note.
pub open spec fn note_view(n: Note) -> NoteView {
    (n.id@, n.title@, n.filepath@, n.content@, n.modified_at, n.created_at, texts(n.tags@))
}

/// The plain values of a list of notes.
pub open spec fn views(notes: Seq<Note>) -> Seq<NoteView> {
    notes.map_values(|n: Note| note_view(n))
}

/// Newer first: `a` was modified after `b`.
pub open spec fn newer(a: NoteView, b: NoteView) -> bool {
    a.4 > b.4
}

/// A note's modification date, as an integer.
pub open spec fn modified_key(v: NoteView) -> int {
    v.4 as int
}

/// The notes ordered newest-modified first, notes modified at the same
/// time keeping their order.
pub open spec fn newest_first(vs: Seq<NoteView>) -> Seq<NoteView> {
    stable_sort(vs, |a: NoteView, b: NoteView| newer(a, b))
}

/// Sorts notes newest-modified first; notes modified at the same time keep
/// their order.
pub fn sort_newest_first(notes: Vec<Note>) -> (r: Vec<Note>)
    ensures
        views(r@) == newest_first(views(notes@)),
{
    let ghost before = notes@;
    let by_date = |a: &Note, b: &Note| -> (res: bool)
        ensures
            res == (a.modified_at > b.modified_at),
        { a.modified_at > b.modified_at };
    let ghost less = |a: Note, b: Note| a.modified_at > b.modified_at;
    let r = stable_sort_vec(notes, &by_date, Ghost(less));
    proof {
        let f = |n: Note| note_view(n);
        let less2 = |a: NoteView, b: NoteView| newer(a, b);
        assert forall|a: Note, b: Note| #[trigger] less(a, b) == less2(f(a), f(b)) by {}
        lemma_stable_sort_map(before, less, f, less2);
        assert(views(before) =~= before.map_values(f));
        assert(views(r@) =~= r@.map_values(f));
    }
    r
}

/// Newest-first order holds of `newest_first`, and it keeps every note.
pub proof fn lemma_newest_first(vs: Seq<NoteView>)
    ensures
        sorted_desc_by(newest_first(vs), |v: NoteView| modified_key(v)),
        newest_first(vs).to_multiset() == vs.to_multiset(),
        newest_first(vs).len() == vs.len(),
{
    let less = |a: NoteView, b: NoteView| newer(a, b);
    let key = |v: NoteView| modified_key(v);
    assert forall|a: NoteView, b: NoteView| #[trigger] less(a, b) == (key(a) > key(b)) by {}
    lemma_stable_sort_desc(vs, key, less);
}

/// Index of the first note with id `id` from position `j` on.
pub open spec fn first_with_id_from(notes: Seq<Note>, id: Seq<char>, j: int) -> Option<int>
    decreases notes.len() - j,
{
    if j < 0 || j >= notes.len() {
        None
    } else if notes[j].id@ == id {
        Some(j)
    } else {
        first_with_id_from(notes, id, j + 1)
    }
}

/// Index of the first note with id `id`.
pub open spec fn first_with_id(notes: Seq<Note>, id: Seq<char>) -> Option<int> {
    first_with_id_from(notes, id, 0)
}

/// The index found is that of a note with the id, and none before it has it.
pub proof fn lemma_first_with_id(notes: Seq<Note>, id: Seq<char>, j: int)
    requires
        0 <= j,
    ensures
        match first_with_id_from(notes, id, j) {
            Some(k) => j <= k < notes.len() && notes[k].id@ == id && forall|i: int|
                j <= i < k ==> (#[trigger] notes[i]).id@ != id,
            None => forall|i: int| j <= i < notes.len() ==> (#[trigger] notes[i]).id@ != id,
        },
    decreases notes.len() - j,
{
    if j < notes.len() && notes[j].id@ != id {
        lemma_first_with_id(notes, id, j + 1);
    }
}

/// Whether a note other than `exclude` has the title `title`, ignoring ASCII
/// case.
pub open spec fn taken_in_memory(notes: Seq<Note>, title: Seq<char>, exclude: Option<Seq<char>>) -> bool {
    exists|k: int|
        0 <= k < notes.len() && (match exclude {
            Some(x) => (#[trigger] notes[k]).id@ != x,
            None => true,
        }) && eq_ignore_ascii_case(notes[k].title@, title)
}

/// The title a note is created with: the requested one trimmed, "Untitled"
/// when that is empty, `/` replaced by `-` (the title names the file, so
/// it is cleaned before anyone asks whether it is free).
pub open spec fn creation_title_of(title: Seq<char>) -> Seq<char> {
    if trim(title).len() == 0 {
        untitled()
    } else {
        dash_slashes(trim(title))
    }
}

/// No character of `s` is `/`.
pub open spec fn no_slash(s: Seq<char>) -> bool {
    forall|i: int| 0 <= i < s.len() ==> #[trigger] s[i] != '/'
}

/// The title a note is renamed to: trimmed, "Untitled" when empty, `/`
/// replaced by `-`.
pub open spec fn rename_title_of(title: Seq<char>) -> Seq<char> {
    if trim(title).len() == 0 {
        untitled()
    } else {
        dash_slashes(trim(title))
    }
}

/// The title tried after a taken one, at the given attempt: the timestamp
/// itself first, then the timestamp with `-1`, `-2`, ...
pub open spec fn candidate_title_of(stamp: Seq<char>, attempt: nat) -> Seq<char> {
    if attempt == 0 {
        stamp
    } else {
        stamp + seq!['-'] + decimal(attempt)
    }
}

/// Whether `path` names a note file: its extension is exactly `md`, `txt`
/// or `markdown` (case matters).
pub open spec fn is_note_path(path: Seq<char>) -> bool {
    match extension(path) {
        Some(e) => e == seq!['m', 'd'] || e == seq!['t', 'x', 't'] || e == seq![
            'm',
            'a',
            'r',
            'k',
            'd',
            'o',
            'w',
            'n',
        ],
        None => false,
    }
}

/// Whether the file at `path` is a note file (see `is_note_path`).
pub fn is_note_file(path: &str) -> (r: bool)
    ensures
        r == is_note_path(path@),
{
    let p = chars_of(path);
    match crate::path::extension_of(p.as_slice()) {
        Some(e) => {
            let md: [char; 2] = ['m', 'd'];
            let txt: [char; 3] = ['t', 'x', 't'];
            let markdown: [char; 8] = ['m', 'a', 'r', 'k', 'd', 'o', 'w', 'n'];
            assert(md@ =~= seq!['m', 'd']);
            assert(txt@ =~= seq!['t', 'x', 't']);
            assert(markdown@ =~= seq!['m', 'a', 'r', 'k', 'd', 'o', 'w', 'n']);
            same_chars(e.as_slice(), &md) || same_chars(e.as_slice(), &txt) || same_chars(
                e.as_slice(),
                &markdown,
            )
        },
        None => false,
    }
}

/// The file name of a note on disk: that of its path, else `<id>.md`.
pub open spec fn note_file_name_of(n: NoteView) -> Seq<char> {
    match file_name(n.2) {
        Some(f) => f,
        None => n.0 + seq!['.', 'm', 'd'],
    }
}

/// The file name (`<stem>.<ext>`) of a note on disk.
pub fn note_filename(note: &Note) -> (r: String)
    ensures
        r@ == note_file_name_of(note_view(*note)),
{
    match crate::path::file_name_of(note.filepath.as_str()) {
        Some(f) => f,
        None => {
            let mut v = chars_of(note.id.as_str());
            v.push('.');
            v.push('m');
            v.push('d');
            assert(v@ =~= note.id@ + seq!['.', 'm', 'd']);
            string_of(v.as_slice())
        },
    }
}

/// The name tried when moving `file_name` into the trash, at the given
/// attempt: the name itself first, then `<stem>-trash-2<.ext>`,
/// `<stem>-trash-3<.ext>`, ... where the stem ends before the last `.`.
pub open spec fn trash_name_of(file_name: Seq<char>, attempt: nat) -> Seq<char> {
    if attempt == 0 {
        file_name
    } else {
        let dot = crate::path::last_index_before(file_name, '.', file_name.len() as int);
        let stem = if dot >= 0 {
            file_name.take(dot)
        } else {
            file_name
        };
        let ext = if dot >= 0 {
            file_name.skip(dot)
        } else {
            seq![]
        };
        stem + seq!['-', 't', 'r', 'a', 's', 'h', '-'] + decimal(attempt + 1) + ext
    }
}

/// The name tried for a note moved into the trash (see `trash_name_of`).
pub fn trash_name(file_name: &str, attempt: u32) -> (r: String)
    requires
        attempt < u32::MAX,
    ensures
        r@ == trash_name_of(file_name@, attempt as nat),
{
    let f = chars_of(file_name);
    if attempt == 0 {
        return string_of(f.as_slice());
    }
    proof {
        crate::path::lemma_last_index_bounds(f@, '.', f@.len() as int);
    }
    let dot = crate::path::last_index_before_exec(f.as_slice(), '.', f.len());
    let mut out: Vec<char> = Vec::new();
    let split: usize = match dot {
        Some(k) => k,
        None => f.len(),
    };
    let mut i: usize = 0;
    while i < split
        invariant
            i <= split <= f@.len(),
            out@ == f@.take(i as int),
        decreases split - i,
    {
        out.push(f[i]);
        i += 1;
        assert(out@ =~= f@.take(i as int));
    }
    let mark: [char; 7] = ['-', 't', 'r', 'a', 's', 'h', '-'];
    out.extend_from_slice(&mark);
    let mut num = decimal_exec(attempt as u64 + 1);
    out.append(&mut num);
    let ghost head = out@;
    while i < f.len()
        invariant
            split <= i <= f@.len(),
            out@ == head + f@.subrange(split as int, i as int),
        decreases f@.len() - i,
    {
        out.push(f[i]);
        i += 1;
        assert(out@ =~= head + f@.subrange(split as int, i as int));
    }
    proof {
        assert(mark@ =~= seq!['-', 't', 'r', 'a', 's', 'h', '-']);
        assert(f@.take(f@.len() as int) =~= f@);
        assert(f@.subrange(split as int, f@.len() as int) =~= f@.skip(split as int));
        assert(f@.skip(f@.len() as int) =~= Seq::<char>::empty());
        assert(out@ =~= trash_name_of(file_name@, attempt as nat));
    }
    string_of(out.as_slice())
}

/// The title tried after a taken one (see `candidate_title_of`).
pub fn candidate_title(stamp: &str, attempt: u32) -> (r: String)
    ensures
        r@ == candidate_title_of(stamp@, attempt as nat),
{
    let mut v = chars_of(stamp);
    if attempt > 0 {
        v.push('-');
        let mut d = decimal_exec(attempt as u64);
        v.append(&mut d);
    }
    string_of(v.as_slice())
}

/// The title a note is created with (see `creation_title_of`); it is
/// cleaned as a rename cleans one.
pub fn creation_title(title: &str) -> (r: String)
    ensures
        r@ == creation_title_of(title@),
{
    rename_title(title)
}

/// The title a note is renamed to (see `rename_title_of`).
pub fn rename_title(title: &str) -> (r: String)
    ensures
        r@ == rename_title_of(title@),
{
    let t = trim_chars(chars_of(title).as_slice());
    if t.len() == 0 {
        let u = string_of(&['U', 'n', 't', 'i', 't', 'l', 'e', 'd']);
        assert(u@ =~= untitled());
        u
    } else {
        let mut r: Vec<char> = Vec::new();
        let mut i: usize = 0;
        while i < t.len()
            invariant
                i <= t@.len(),
                r@ == dash_slashes(t@.take(i as int)),
            decreases t@.len() - i,
        {
            let c = t[i];
            r.push(if c == '/' { '-' } else { c });
            i += 1;
            assert(r@ =~= dash_slashes(t@.take(i as int)));
        }
        assert(t@.take(t@.len() as int) =~= t@);
        string_of(r.as_slice())
    }
}

/// Index of the first note of `notes` with id `id`.
pub fn find_note(notes: &[Note], id: &str) -> (r: Option<usize>)
    ensures
        match r {
            Some(k) => first_with_id(notes@, id@) == Some(k as int) && k < notes@.len(),
            None => first_with_id(notes@, id@) is None,
        },
{
    let want = chars_of(id);
    let mut k: usize = 0;
    while k < notes.len()
        invariant
            k <= notes@.len(),
            want@ == id@,
            first_with_id(notes@, id@) == first_with_id_from(notes@, id@, k as int),
        decreases notes@.len() - k,
    {
        if same_chars(chars_of(notes[k].id.as_str()).as_slice(), want.as_slice()) {
            return Some(k);
        }
        k += 1;
    }
    None
}

/// The outcome of asking to rename a note.
pub enum RenamePlan {
    /// No note has that id.
    UnknownId,
    /// The note already has the wanted title: nothing to do.
    Unchanged(Note),
    /// The note at `index` is to get the title `want`, or a free one if
    /// `want` is taken.
    Move { index: usize, want: String },
}

/// The outcome of asking to save a note's content.
pub enum SavePlan {
    /// No note has that id.
    UnknownId,
    /// The content is the same: nothing to write.
    Unchanged,
    /// The note at `index` has the new content and is to be written.
    Write { index: usize },
}

/// The notes in memory, with where new note files go.
pub struct StorageManager {
    pub notes_dir: String,
    pub default_extension: String,
    pub notes: Vec<Note>,
}

impl StorageManager {
    /// A storage over the directory and extension of `config`, loaded with
    /// `found`, the notes read from that directory, newest first (as
    /// `reload` orders them).
    pub fn new(config: &Config, found: Vec<Note>) -> (r: StorageManager)
        ensures
            r.notes_dir@ == config.notes_dir@,
            r.default_extension@ == config.default_extension@,
            views(r.notes@) == newest_first(views(found@)),
    {
        StorageManager {
            notes_dir: copy_string(&config.notes_dir),
            default_extension: copy_string(&config.default_extension),
            notes: sort_newest_first(found),
        }
    }

    /// The path of the note file titled `title`: `<notes_dir>/<title>.<ext>`.
    pub open spec fn path_for(&self, title: Seq<char>) -> Seq<char> {
        join(self.notes_dir@, file_name_for(title, self.default_extension@))
    }

    /// The path of the note file titled `title` (see `path_for`).
    pub fn note_path(&self, title: &str) -> (r: String)
        ensures
            r@ == self.path_for(title@),
    {
        let mut name = chars_of(title);
        name.push('.');
        let mut ext = chars_of(self.default_extension.as_str());
        name.append(&mut ext);
        assert(name@ =~= file_name_for(title@, self.default_extension@));
        let dir = chars_of(self.notes_dir.as_str());
        string_of(join_exec(dir.as_slice(), name.as_slice()).as_slice())
    }

    /// The trash directory: `<notes_dir>/.trash`.
    pub fn trash_dir(&self) -> (r: String)
        ensures
            r@ == join(self.notes_dir@, seq!['.', 't', 'r', 'a', 's', 'h']),
    {
        proof {
            reveal_strlit(".trash");
        }
        let name = chars_of(TRASH_DIR_NAME);
        assert(name@ =~= seq!['.', 't', 'r', 'a', 's', 'h']);
        let dir = chars_of(self.notes_dir.as_str());
        string_of(join_exec(dir.as_slice(), name.as_slice()).as_slice())
    }

    /// Replaces the notes with those loaded from the directory, newest first.
    pub fn reload(&mut self, found: Vec<Note>)
        ensures
            final(self).notes_dir@ == old(self).notes_dir@,
            final(self).default_extension@ == old(self).default_extension@,
            views(final(self).notes@) == newest_first(views(found@)),
    {
        self.notes = sort_newest_first(found);
    }

    /// Orders the notes newest-modified first.
    pub fn resort(&mut self)
        ensures
            final(self).notes_dir@ == old(self).notes_dir@,
            final(self).default_extension@ == old(self).default_extension@,
            views(final(self).notes@) == newest_first(views(old(self).notes@)),
    {
        let mut notes: Vec<Note> = Vec::new();
        std::mem::swap(&mut notes, &mut self.notes);
        self.notes = sort_newest_first(notes);
    }

    /// The first note with id `id`.
    pub fn get_note(&self, id: &str) -> (r: Option<&Note>)
        ensures
            match r {
                Some(n) => first_with_id(self.notes@, id@) matches Some(k) && *n == self.notes@[k],
                None => first_with_id(self.notes@, id@) is None,
            },
    {
        match find_note(self.notes.as_slice(), id) {
            Some(k) => Some(&self.notes[k]),
            None => None,
        }
    }

    /// Whether `title` is taken: by a note other than `exclude_id` (titles
    /// compared ignoring ASCII case), or by a file, as `file_exists` tells
    /// for `<notes_dir>/<title>.<ext>`.
    pub fn title_taken(&self, title: &str, exclude_id: Option<&str>, file_exists: bool) -> (r:
        bool)
        ensures
            r == (taken_in_memory(
                self.notes@,
                title@,
                match exclude_id {
                    Some(x) => Some(x@),
                    None => None,
                },
            ) || file_exists),
    {
        let t = chars_of(title);
        let ghost ex: Option<Seq<char>> = match exclude_id {
            Some(x) => Some(x@),
            None => None,
        };
        let mut k: usize = 0;
        while k < self.notes.len()
            invariant
                k <= self.notes@.len(),
                t@ == title@,
                ex == (match exclude_id {
                    Some(x) => Some(x@),
                    None => None::<Seq<char>>,
                }),
                forall|j: int|
                    0 <= j < k ==> !((match ex {
                        Some(x) => (#[trigger] self.notes@[j]).id@ != x,
                        None => true,
                    }) && eq_ignore_ascii_case(self.notes@[j].title@, title@)),
            decreases self.notes@.len() - k,
        {
            let n = &self.notes[k];
            let other = match exclude_id {
                Some(x) => !same_chars(chars_of(n.id.as_str()).as_slice(), chars_of(x).as_slice()),
                None => true,
            };
            if other && eq_ignore_ascii_case_exec(chars_of(n.title.as_str()).as_slice(), t.as_slice()) {
                return true;
            }
            k += 1;
        }
        file_exists
    }

    /// Puts a newly created note at the front.
    pub fn insert_created(&mut self, note: Note)
        ensures
            final(self).notes_dir@ == old(self).notes_dir@,
            final(self).default_extension@ == old(self).default_extension@,
            views(final(self).notes@) == seq![note_view(note)] + views(old(self).notes@),
    {
        let ghost nv = note_view(note);
        self.notes.insert(0, note);
        assert(views(self.notes@) =~= seq![nv] + views(old(self).notes@));
    }

    /// What renaming the note `id` to `new_title` calls for: nothing for an
    /// unknown id; nothing when its title already is the wanted one (see
    /// `rename_title_of`); else moving the note at that index.
    pub fn rename_plan(&self, id: &str, new_title: &str) -> (r: RenamePlan)
        ensures
            match r {
                RenamePlan::UnknownId => first_with_id(self.notes@, id@) is None,
                RenamePlan::Unchanged(n) => first_with_id(self.notes@, id@) matches Some(k)
                    && note_view(n) == note_view(self.notes@[k]) && self.notes@[k].title@
                    == rename_title_of(new_title@),
                RenamePlan::Move { index, want } => first_with_id(self.notes@, id@) == Some(
                    index as int,
                ) && want@ == rename_title_of(new_title@) && self.notes@[index as int].title@
                    != want@,
            },
    {
        let idx = match find_note(self.notes.as_slice(), id) {
            Some(k) => k,
            None => {
                return RenamePlan::UnknownId;
            },
        };
        let want = rename_title(new_title);
        if same_chars(
            chars_of(want.as_str()).as_slice(),
            chars_of(self.notes[idx].title.as_str()).as_slice(),
        ) {
            RenamePlan::Unchanged(self.notes[idx].duplicate())
        } else {
            RenamePlan::Move { index: idx, want }
        }
    }

    /// After the file of the note at `index` was moved to `target`: the note
    /// takes `title` as id and title and `target` as path, keeps its content,
    /// tags and dates, and the list is ordered newest first again.
    pub fn finish_rename(&mut self, index: usize, title: &str, target: &str) -> (r: Note)
        requires
            index < old(self).notes@.len(),
        ensures
            final(self).notes_dir@ == old(self).notes_dir@,
            final(self).default_extension@ == old(self).default_extension@,
            note_view(r) == renamed(note_view(old(self).notes@[index as int]), title@, target@),
            views(final(self).notes@) == newest_first(
                views(old(self).notes@).remove(index as int).push(note_view(r)),
            ),
    {
        let ghost before = views(self.notes@);
        let mut note = self.notes.remove(index);
        proof {
            assert(views(self.notes@) =~= before.remove(index as int));
        }
        note.filepath = string_of(chars_of(target).as_slice());
        note.id = string_of(chars_of(title).as_slice());
        note.title = string_of(chars_of(title).as_slice());
        let result = note.duplicate();
        let ghost mid = views(self.notes@);
        self.notes.push(note);
        assert(views(self.notes@) =~= mid.push(note_view(result)));
        self.resort();
        result
    }

    /// After a move failed: the note at `index` goes back into the list,
    /// which is ordered newest first again.
    pub fn keep_after_failed_move(&mut self, index: usize)
        requires
            index < old(self).notes@.len(),
        ensures
            final(self).notes_dir@ == old(self).notes_dir@,
            final(self).default_extension@ == old(self).default_extension@,
            views(final(self).notes@) == newest_first(
                views(old(self).notes@).remove(index as int).push(
                    views(old(self).notes@)[index as int],
                ),
            ),
    {
        let ghost before = views(self.notes@);
        let note = self.notes.remove(index);
        proof {
            assert(views(self.notes@) =~= before.remove(index as int));
        }
        let ghost mid = views(self.notes@);
        self.notes.push(note);
        assert(views(self.notes@) =~= mid.push(before[index as int]));
        self.resort();
    }

    /// Takes the note at `index` out of the list (its file went to the
    /// trash).
    pub fn remove_at(&mut self, index: usize) -> (r: Note)
        requires
            index < old(self).notes@.len(),
        ensures
            final(self).notes_dir@ == old(self).notes_dir@,
            final(self).default_extension@ == old(self).default_extension@,
            note_view(r) == views(old(self).notes@)[index as int],
            views(final(self).notes@) == views(old(self).notes@).remove(index as int),
    {
        let ghost before = views(self.notes@);
        let r = self.notes.remove(index);
        assert(views(self.notes@) =~= before.remove(index as int));
        r
    }

    /// What saving `content` into the note `id` calls for: nothing for an
    /// unknown id or unchanged content; else the content is taken (kept even
    /// if writing fails) and the note is to be written.
    pub fn save_plan(&mut self, id: &str, content: &str) -> (r: SavePlan)
        ensures
            final(self).notes_dir@ == old(self).notes_dir@,
            final(self).default_extension@ == old(self).default_extension@,
            final(self).notes@.len() == old(self).notes@.len(),
            match r {
                SavePlan::UnknownId => first_with_id(old(self).notes@, id@) is None && views(
                    final(self).notes@,
                ) == views(old(self).notes@),
                SavePlan::Unchanged => first_with_id(old(self).notes@, id@) matches Some(k)
                    && old(self).notes@[k].content@ == content@ && views(final(self).notes@)
                    == views(old(self).notes@),
                SavePlan::Write { index } => first_with_id(old(self).notes@, id@) == Some(
                    index as int,
                ) && old(self).notes@[index as int].content@ != content@ && views(
                    final(self).notes@,
                ) == views(old(self).notes@).update(
                    index as int,
                    with_content(views(old(self).notes@)[index as int], content@),
                ),
            },
    {
        let idx = match find_note(self.notes.as_slice(), id) {
            Some(k) => k,
            None => {
                return SavePlan::UnknownId;
            },
        };
        if same_chars(chars_of(self.notes[idx].content.as_str()).as_slice(), chars_of(content).as_slice()) {
            return SavePlan::Unchanged;
        }
        let ghost before = views(self.notes@);
        let mut note = self.notes.remove(idx);
        note.content = string_of(chars_of(content).as_slice());
        let ghost nv = note_view(note);
        self.notes.insert(idx, note);
        assert(views(self.notes@) =~= before.update(idx as int, nv));
        SavePlan::Write { index: idx }
    }

    /// After the note at `index` was written at `now`: its modification date
    /// becomes `now` and its tags are read again from its content.
    pub fn finish_save(&mut self, index: usize, now: i64)
        requires
            index < old(self).notes@.len(),
        ensures
            final(self).notes_dir@ == old(self).notes_dir@,
            final(self).default_extension@ == old(self).default_extension@,
            final(self).notes@.len() == old(self).notes@.len(),
            forall|k: int|
                0 <= k < old(self).notes@.len() && k != index ==> note_view(
                    #[trigger] final(self).notes@[k],
                ) == note_view(old(self).notes@[k]),
            saved(note_view(old(self).notes@[index as int]), note_view(final(self).notes@[index as int]), now),
    {
        let ghost before = self.notes@;
        let mut note = self.notes.remove(index);
        note.record_save(now);
        self.notes.insert(index, note);
        assert forall|k: int| 0 <= k < before.len() && k != index implies note_view(
            #[trigger] self.notes@[k],
        ) == note_view(before[k]) by {
            if k < index {
                assert(self.notes@[k] == before[k]);
            } else {
                assert(self.notes@[k] == before[k]);
            }
        }
    }

    /// Whether a restored note needs a new name: its file name is taken in
    /// the notes directory (`target_exists`) or a note with its id is loaded.
    pub fn restore_needs_new_name(&self, id: &str, target_exists: bool) -> (r: bool)
        ensures
            r == (target_exists || first_with_id(self.notes@, id@) is Some),
    {
        if target_exists {
            return true;
        }
        match find_note(self.notes.as_slice(), id) {
            Some(_) => true,
            None => false,
        }
    }

    /// Adds a restored note and orders the list newest first again.
    pub fn add_restored(&mut self, note: Note)
        ensures
            final(self).notes_dir@ == old(self).notes_dir@,
            final(self).default_extension@ == old(self).default_extension@,
            views(final(self).notes@) == newest_first(views(old(self).notes@).push(note_view(note))),
    {
        let ghost before = views(self.notes@);
        let ghost nv = note_view(note);
        self.notes.push(note);
        assert(views(self.notes@) =~= before.push(nv));
        self.resort();
    }
}

/// `file_exists` answered that nothing exists at `path`.
pub open spec fn reported_absent<E: Fn(&str) -> bool>(file_exists: E, path: Seq<char>) -> bool {
    exists|p: &str| p@ == path && call_ensures(file_exists, (p,), false)
}

/// `file_exists` answered that something exists at `path`.
pub open spec fn reported_present<E: Fn(&str) -> bool>(file_exists: E, path: Seq<char>) -> bool {
    exists|p: &str| p@ == path && call_ensures(file_exists, (p,), true)
}

/// A title made from a timestamp with seconds (see `candidate_title_of`).
pub open spec fn stamp_candidate(t: Seq<char>) -> bool {
    exists|f: DateFields, k: nat| fields_in_range(f) && t == candidate_title_of(stamp_text(f, true), k)
}

/// The exclusion as plain text.
pub open spec fn excluded(exclude_id: Option<&str>) -> Option<Seq<char>> {
    match exclude_id {
        Some(x) => Some(x@),
        None => None,
    }
}

impl StorageManager {
    /// `title` was found taken: by a note other than `exclude`, or by a file
    /// as `file_exists` answered.
    pub open spec fn found_taken<E: Fn(&str) -> bool>(
        &self,
        title: Seq<char>,
        exclude: Option<Seq<char>>,
        file_exists: E,
    ) -> bool {
        taken_in_memory(self.notes@, title, exclude) || reported_present(file_exists, self.path_for(title))
    }

    /// The timestamp title of attempt `k` was found taken, whatever time it
    /// was made at.
    pub open spec fn stamp_attempt_taken<E: Fn(&str) -> bool>(
        &self,
        k: nat,
        exclude: Option<Seq<char>>,
        file_exists: E,
    ) -> bool {
        exists|f: DateFields|
            fields_in_range(f) && self.found_taken(
                candidate_title_of(stamp_text(f, true), k),
                exclude,
                file_exists,
            )
    }

    /// A free title made from the current time: the timestamp with seconds,
    /// then the timestamp with `-1`, `-2`, ... (a fresh timestamp each
    /// time), the first that no note other than `exclude_id` has (ignoring
    /// ASCII case) and for whose file `file_exists` answers `false`. `None`
    /// only once every counter value up to `u32::MAX` was taken.
    pub fn free_stamp_title<E: Fn(&str) -> bool>(&self, exclude_id: Option<&str>, file_exists: &E) -> (r:
        Option<String>)
        requires
            forall|p: &str| file_exists.requires((p,)),
        ensures
            match r {
                Some(t) => {
                    &&& !taken_in_memory(self.notes@, t@, excluded(exclude_id))
                    &&& reported_absent(*file_exists, self.path_for(t@))
                    &&& exists|f: DateFields, k: nat|
                        fields_in_range(f) && t@ == candidate_title_of(stamp_text(f, true), k)
                            && forall|j: nat|
                            j < k ==> #[trigger] self.stamp_attempt_taken(
                                j,
                                excluded(exclude_id),
                                *file_exists,
                            )
                },
                None => forall|j: nat|
                    j <= u32::MAX ==> #[trigger] self.stamp_attempt_taken(
                        j,
                        excluded(exclude_id),
                        *file_exists,
                    ),
            },
    {
        let ghost ex = excluded(exclude_id);
        let mut attempt: u32 = 0;
        loop
            invariant
                forall|p: &str| file_exists.requires((p,)),
                ex == excluded(exclude_id),
                forall|j: nat| j < attempt ==> #[trigger] self.stamp_attempt_taken(j, ex, *file_exists),
            decreases u32::MAX - attempt,
        {
            let stamp = timestamp_title_with_seconds();
            let cand = candidate_title(stamp.as_str(), attempt);
            let path = self.note_path(cand.as_str());
            let on_disk = file_exists(path.as_str());
            let taken = self.title_taken(cand.as_str(), exclude_id, on_disk);
            let ghost f = choose|f: DateFields| fields_in_range(f) && stamp@ == stamp_text(f, true);
            if !taken {
                return Some(cand);
            }
            proof {
                assert(cand@ == candidate_title_of(stamp_text(f, true), attempt as nat));
                if on_disk {
                    assert(reported_present(*file_exists, self.path_for(cand@)));
                }
                assert(self.found_taken(cand@, ex, *file_exists));
                assert(self.stamp_attempt_taken(attempt as nat, ex, *file_exists));
            }
            if attempt == u32::MAX {
                return None;
            }
            attempt += 1;
        }
    }

    /// A free title for a note: `want` when no note other than `exclude_id`
    /// has it (ignoring ASCII case) and `file_exists` answers `false` for its
    /// file; otherwise a free title made from the current time (see
    /// `free_stamp_title`).
    pub fn free_title<E: Fn(&str) -> bool>(
        &self,
        want: String,
        exclude_id: Option<&str>,
        file_exists: &E,
    ) -> (r: Option<String>)
        requires
            forall|p: &str| file_exists.requires((p,)),
        ensures
            match r {
                Some(t) => {
                    &&& !taken_in_memory(self.notes@, t@, excluded(exclude_id))
                    &&& reported_absent(*file_exists, self.path_for(t@))
                    &&& (t@ == want@ || (self.found_taken(want@, excluded(exclude_id), *file_exists)
                        && stamp_candidate(t@)))
                },
                None => self.found_taken(want@, excluded(exclude_id), *file_exists) && forall|
                    j: nat,
                | j <= u32::MAX ==> #[trigger] self.stamp_attempt_taken(
                    j,
                    excluded(exclude_id),
                    *file_exists,
                ),
            },
    {
        let path = self.note_path(want.as_str());
        let on_disk = file_exists(path.as_str());
        if !self.title_taken(want.as_str(), exclude_id, on_disk) {
            return Some(want);
        }
        proof {
            if on_disk {
                assert(reported_present(*file_exists, self.path_for(want@)));
            }
        }
        self.free_stamp_title(exclude_id, file_exists)
    }
}

/// Decimal text holds no `/`.
proof fn lemma_decimal_no_slash(n: nat)
    ensures
        no_slash(decimal(n)),
    decreases n,
{
    crate::text::lemma_decimal_shape(n);
    if n >= 10 {
        lemma_decimal_no_slash(n / 10);
        assert(decimal(n) == decimal(n / 10).push(crate::text::digit_char(n % 10)));
    }
    assert forall|i: int| 0 <= i < decimal(n).len() implies #[trigger] decimal(n)[i] != '/' by {
        if n >= 10 && i < decimal(n).len() - 1 {
            assert(decimal(n)[i] == decimal(n / 10)[i]);
        }
    }
}

/// Zero-padded decimal text holds no `/`.
proof fn lemma_zero_padded_no_slash(n: nat, w: nat)
    ensures
        no_slash(crate::text::zero_padded(n, w)),
{
    lemma_decimal_no_slash(n);
    let d = decimal(n);
    if d.len() < w {
        let pad = Seq::new((w - d.len()) as nat, |_i: int| '0');
        let z = pad + d;
        assert forall|i: int| 0 <= i < z.len() implies #[trigger] z[i] != '/' by {
            if i >= pad.len() {
                assert(z[i] == d[i - pad.len()]);
            }
        }
    }
}

/// Two texts without `/` make one without `/`.
proof fn lemma_concat_no_slash(a: Seq<char>, b: Seq<char>)
    requires
        no_slash(a),
        no_slash(b),
    ensures
        no_slash(a + b),
{
    assert forall|i: int| 0 <= i < (a + b).len() implies #[trigger] (a + b)[i] != '/' by {
        if i >= a.len() {
            assert((a + b)[i] == b[i - a.len()]);
        }
    }
}

/// Titles made from a timestamp hold no `/`.
pub proof fn lemma_stamp_candidate_no_slash(t: Seq<char>)
    requires
        stamp_candidate(t),
    ensures
        no_slash(t),
{
    let (f, k) = choose|f: DateFields, k: nat|
        fields_in_range(f) && t == candidate_title_of(stamp_text(f, true), k);
    let y = f.year as int;
    if 0 <= y <= 9999 {
        lemma_zero_padded_no_slash(y as nat, 4);
    } else if y < 0 {
        lemma_zero_padded_no_slash((-y) as nat, 4);
        lemma_concat_no_slash(seq!['-'], crate::text::zero_padded((-y) as nat, 4));
    } else {
        lemma_zero_padded_no_slash(y as nat, 4);
        lemma_concat_no_slash(seq!['+'], crate::text::zero_padded(y as nat, 4));
    }
    let yt = crate::util::year_text(y);
    lemma_zero_padded_no_slash(f.month as nat, 2);
    lemma_zero_padded_no_slash(f.day as nat, 2);
    lemma_zero_padded_no_slash(f.hour as nat, 2);
    lemma_zero_padded_no_slash(f.minute as nat, 2);
    lemma_zero_padded_no_slash(crate::util::shown_second(f), 2);
    let a1 = yt + crate::util::two_digits(f.month as nat);
    lemma_concat_no_slash(yt, crate::util::two_digits(f.month as nat));
    let a2 = a1 + crate::util::two_digits(f.day as nat);
    lemma_concat_no_slash(a1, crate::util::two_digits(f.day as nat));
    let a3 = a2 + seq!['-'];
    lemma_concat_no_slash(a2, seq!['-']);
    let a4 = a3 + crate::util::two_digits(f.hour as nat);
    lemma_concat_no_slash(a3, crate::util::two_digits(f.hour as nat));
    let a5 = a4 + crate::util::two_digits(f.minute as nat);
    lemma_concat_no_slash(a4, crate::util::two_digits(f.minute as nat));
    let st = a5 + crate::util::two_digits(crate::util::shown_second(f));
    lemma_concat_no_slash(a5, crate::util::two_digits(crate::util::shown_second(f)));
    assert(st == stamp_text(f, true));
    if k > 0 {
        lemma_decimal_no_slash(k);
        lemma_concat_no_slash(st, seq!['-']);
        lemma_concat_no_slash(st + seq!['-'], decimal(k));
    }
}

/// Creation titles hold no `/`.
pub proof fn lemma_creation_title_no_slash(title: Seq<char>)
    ensures
        no_slash(creation_title_of(title)),
{
    let c = creation_title_of(title);
    assert forall|i: int| 0 <= i < c.len() implies #[trigger] c[i] != '/' by {
        if trim(title).len() != 0 {
            assert(c[i] == (if trim(title)[i] == '/' { '-' } else { trim(title)[i] }));
        }
    }
}

/// Turning `/` into `-` leaves a text without `/` as it is.
pub proof fn lemma_dash_slashes_fixed(s: Seq<char>)
    requires
        no_slash(s),
    ensures
        dash_slashes(s) == s,
{
    assert(dash_slashes(s) =~= s);
}

impl StorageManager {
    /// The note that creating one titled `title` makes, before its file is
    /// written: the creation title (see `creation_title_of`) when it is free
    /// (no note has it, ignoring ASCII case, and `file_exists` answers
    /// `false` for its file), else a free title made from the current time
    /// (see `free_title`); an empty note created now, whose file is that
    /// title's in the notes directory. So creating never picks a file that
    /// `file_exists` reported. `None` only once every timestamp counter up to
    /// `u32::MAX` was taken.
    pub fn note_to_create<E: Fn(&str) -> bool>(&self, title: &str, file_exists: &E) -> (r: Option<
        Note,
    >)
        requires
            forall|p: &str| file_exists.requires((p,)),
        ensures
            match r {
                Some(n) => {
                    &&& n.id@ == n.title@
                    &&& n.filepath@ == self.path_for(n.title@)
                    &&& !taken_in_memory(self.notes@, n.title@, None)
                    &&& reported_absent(*file_exists, n.filepath@)
                    &&& (n.title@ == creation_title_of(title@) || (self.found_taken(
                        creation_title_of(title@),
                        None,
                        *file_exists,
                    ) && stamp_candidate(n.title@)))
                    &&& n.content@.len() == 0
                    &&& n.tags@.len() == 0
                    &&& n.modified_at == n.created_at
                },
                None => self.found_taken(creation_title_of(title@), None, *file_exists) && forall|
                    j: nat,
                | j <= u32::MAX ==> #[trigger] self.stamp_attempt_taken(j, None, *file_exists),
            },
    {
        let want = creation_title(title);
        match self.free_title(want, None, file_exists) {
            Some(t) => {
                proof {
                    if t@ == creation_title_of(title@) {
                        lemma_creation_title_no_slash(title@);
                    } else {
                        lemma_stamp_candidate_no_slash(t@);
                    }
                    lemma_dash_slashes_fixed(t@);
                }
                let n = Note::new(self.notes_dir.as_str(), t.as_str(), self.default_extension.as_str());
                Some(n)
            },
            None => None,
        }
    }
}

/// A note created while another is loaded (put first by `insert_created`)
/// never gets that note's title, not even in another case: creating twice
/// with the same title gives two notes.
pub proof fn lemma_created_after_differs(before: Seq<Note>, after: Seq<Note>, first: Note, t: Seq<char>)
    requires
        views(after) == seq![note_view(first)] + views(before),
        !taken_in_memory(after, t, None),
    ensures
        !eq_ignore_ascii_case(first.title@, t),
{
    assert(views(after).len() == after.len());
    assert(views(after)[0] == note_view(after[0]));
    assert(after[0].title@ == first.title@);
    if eq_ignore_ascii_case(first.title@, t) {
        assert(0 <= 0 < after.len() && eq_ignore_ascii_case(after[0].title@, t));
        assert(taken_in_memory(after, t, None));
    }
}

impl StorageManager {
    /// Where the trashed note `entry` goes back to: its own file name in
    /// the notes directory.
    pub open spec fn home_path_of(&self, entry: Note) -> Seq<char> {
        join(self.notes_dir@, note_file_name_of(note_view(entry)))
    }

    /// Where restoring the trashed note `entry` moves its file: back under
    /// its own file name when `file_exists` answers `false` for that path
    /// and no loaded note has its id; otherwise the file of a free title
    /// made from the current time (see `free_stamp_title`). `None` only once
    /// every timestamp counter up to `u32::MAX` was taken.
    pub fn restore_target<E: Fn(&str) -> bool>(&self, entry: &Note, file_exists: &E) -> (r: Option<
        String,
    >)
        requires
            forall|p: &str| file_exists.requires((p,)),
        ensures
            match r {
                Some(t) => reported_absent(*file_exists, t@) && (
                    (t@ == self.home_path_of(*entry) && first_with_id(self.notes@, entry.id@) is None)
                    || ((reported_present(*file_exists, self.home_path_of(*entry))
                        || first_with_id(self.notes@, entry.id@) is Some) && exists|c: Seq<char>|
                        #[trigger] stamp_candidate(c) && !taken_in_memory(self.notes@, c, None)
                            && t@ == self.path_for(c))),
                None => (reported_present(*file_exists, self.home_path_of(*entry)) || first_with_id(
                    self.notes@,
                    entry.id@,
                ) is Some) && forall|j: nat|
                    j <= u32::MAX ==> #[trigger] self.stamp_attempt_taken(j, None, *file_exists),
            },
    {
        let name = note_filename(entry);
        let dir = chars_of(self.notes_dir.as_str());
        let home = string_of(join_exec(dir.as_slice(), chars_of(name.as_str()).as_slice()).as_slice());
        let on_disk = file_exists(home.as_str());
        if self.restore_needs_new_name(entry.id.as_str(), on_disk) {
            proof {
                if on_disk {
                    assert(reported_present(*file_exists, self.home_path_of(*entry)));
                }
            }
            match self.free_stamp_title(None, file_exists) {
                Some(c) => {
                    let t = self.note_path(c.as_str());
                    proof {
                        let (f, k) = choose|f: DateFields, k: nat|
                            fields_in_range(f) && c@ == candidate_title_of(stamp_text(f, true), k)
                                && forall|j: nat| j < k ==> #[trigger] self.stamp_attempt_taken(j, None, *file_exists);
                        assert(stamp_candidate(c@));
                    }
                    Some(t)
                },
                None => None,
            }
        } else {
            proof {
                assert(reported_absent(*file_exists, home@));
            }
            Some(home)
        }
    }
}

/// A trashed note whose name was taken meanwhile, on disk or by a loaded
/// note, comes back under another title than its old id, as long as the
/// existence check answers consistently and loaded notes are titled by
/// their ids.
pub proof fn lemma_retaken_restore_renames<E: Fn(&str) -> bool>(
    s: StorageManager,
    entry: Note,
    file_exists: E,
    c: Seq<char>,
)
    requires
        note_file_name_of(note_view(entry)) == file_name_for(entry.id@, s.default_extension@),
        forall|k: int| 0 <= k < s.notes@.len() ==> (#[trigger] s.notes@[k]).title@ == s.notes@[k].id@,
        forall|p: Seq<char>|
            !(#[trigger] reported_present(file_exists, p) && reported_absent(file_exists, p)),
        reported_present(file_exists, s.home_path_of(entry)) || first_with_id(s.notes@, entry.id@) is Some,
        !taken_in_memory(s.notes@, c, None),
        reported_absent(file_exists, s.path_for(c)),
    ensures
        c != entry.id@,
{
    if c == entry.id@ {
        if reported_present(file_exists, s.home_path_of(entry)) {
            assert(s.path_for(c) == s.home_path_of(entry));
            assert(!(reported_present(file_exists, s.path_for(c)) && reported_absent(
                file_exists,
                s.path_for(c),
            )));
        } else {
            lemma_first_with_id(s.notes@, entry.id@, 0);
            let k = first_with_id(s.notes@, entry.id@)->0;
            assert(s.notes@[k].title@ == c);
            assert(eq_ignore_ascii_case(s.notes@[k].title@, c));
            assert(taken_in_memory(s.notes@, c, None));
        }
    }
}

/// Deleting a note and restoring it gives back a list of the same length,
/// newest first, that holds the restored note, with the others as they
/// were.
pub proof fn lemma_delete_restore_round_trip(before: Seq<NoteView>, i: int, restored: NoteView)
    requires
        0 <= i < before.len(),
    ensures
        newest_first(before.remove(i).push(restored)).len() == before.len(),
        newest_first(before.remove(i).push(restored)).to_multiset() == before.remove(i).to_multiset().insert(
            restored,
        ),
        newest_first(before.remove(i).push(restored)).contains(restored),
        sorted_desc_by(newest_first(before.remove(i).push(restored)), |v: NoteView| modified_key(v)),
{
    let mid = before.remove(i).push(restored);
    lemma_newest_first(mid);
    vstd::seq_lib::to_multiset_build(before.remove(i), restored);
    assert(mid.contains(restored)) by {
        assert(mid[mid.len() - 1] == restored);
    }
    vstd::seq_lib::to_multiset_contains(mid, restored);
    vstd::seq_lib::to_multiset_contains(newest_first(mid), restored);
}

/// A path in `dir` for moving the file `file_name` into it without
/// overwriting: `dir/file_name`, else `dir/<stem>-trash-2<.ext>`,
/// `dir/<stem>-trash-3<.ext>`, ..., the first for which `file_exists`
/// answers `false`. `None` only once every counter value up to `u32::MAX`
/// was taken.
pub fn unique_path<E: Fn(&str) -> bool>(dir: &str, file_name: &str, file_exists: &E) -> (r: Option<
    String,
>)
    requires
        forall|p: &str| file_exists.requires((p,)),
    ensures
        match r {
            Some(t) => {
                &&& reported_absent(*file_exists, t@)
                &&& exists|k: nat|
                    t@ == join(dir@, trash_name_of(file_name@, k)) && forall|j: nat|
                        j < k ==> reported_present(
                            *file_exists,
                            #[trigger] join(dir@, trash_name_of(file_name@, j)),
                        )
            },
            None => forall|j: nat|
                j < u32::MAX ==> reported_present(
                    *file_exists,
                    #[trigger] join(dir@, trash_name_of(file_name@, j)),
                ),
        },
{
    let d = chars_of(dir);
    let mut attempt: u32 = 0;
    loop
        invariant
            forall|p: &str| file_exists.requires((p,)),
            attempt < u32::MAX,
            d@ == dir@,
            forall|j: nat|
                j < attempt ==> reported_present(
                    *file_exists,
                    #[trigger] join(dir@, trash_name_of(file_name@, j)),
                ),
        decreases u32::MAX - attempt,
    {
        let name = trash_name(file_name, attempt);
        let target = string_of(join_exec(d.as_slice(), chars_of(name.as_str()).as_slice()).as_slice());
        let present = file_exists(target.as_str());
        proof {
            assert(target@ == join(dir@, trash_name_of(file_name@, attempt as nat)));
        }
        if !present {
            return Some(target);
        }
        proof {
            assert(reported_present(*file_exists, join(dir@, trash_name_of(file_name@, attempt as nat))));
        }
        if attempt + 1 == u32::MAX {
            return None;
        }
        attempt += 1;
    }
}

/// A note with its id, title and path changed by a rename.
pub open spec fn renamed(n: NoteView, title: Seq<char>, target: Seq<char>) -> NoteView {
    (title, title, target, n.3, n.4, n.5, n.6)
}

/// A note with new content, nothing else changed.
pub open spec fn with_content(n: NoteView, content: Seq<char>) -> NoteView {
    (n.0, n.1, n.2, content, n.4, n.5, n.6)
}

/// `after` is `before` saved at `now`: same id, title, path, content and
/// creation date, modified at `now`, tags read from the content.
pub open spec fn saved(before: NoteView, after: NoteView, now: i64) -> bool {
    &&& after.0 == before.0
    &&& after.1 == before.1
    &&& after.2 == before.2
    &&& after.3 == before.3
    &&& after.5 == before.5
    &&& after.4 == now
    &&& crate::note::tags_of_content(after.6, after.3)
}

/// The titles tried for one timestamp are all different: every attempt is
/// a new name.
pub proof fn lemma_candidate_titles_distinct(stamp: Seq<char>, a: nat, b: nat)
    requires
        a != b,
    ensures
        candidate_title_of(stamp, a) != candidate_title_of(stamp, b),
{
    crate::text::lemma_decimal_shape(a);
    crate::text::lemma_decimal_shape(b);
    if a > 0 && b > 0 && candidate_title_of(stamp, a) == candidate_title_of(stamp, b) {
        let ta = candidate_title_of(stamp, a);
        let tb = candidate_title_of(stamp, b);
        let start = stamp.len() + 1;
        assert(ta.skip(start as int) =~= decimal(a));
        assert(tb.skip(start as int) =~= decimal(b));
        crate::text::lemma_decimal_injective(a, b);
    }
}

/// The names tried when moving a file into the trash are all different:
/// every attempt is a new name.
pub proof fn lemma_trash_names_distinct(file_name: Seq<char>, a: nat, b: nat)
    requires
        a != b,
    ensures
        trash_name_of(file_name, a) != trash_name_of(file_name, b),
{
    let dot = crate::path::last_index_before(file_name, '.', file_name.len() as int);
    crate::path::lemma_last_index_bounds(file_name, '.', file_name.len() as int);
    let stem = if dot >= 0 {
        file_name.take(dot)
    } else {
        file_name
    };
    let ext = if dot >= 0 {
        file_name.skip(dot)
    } else {
        seq![]
    };
    assert(stem.len() + ext.len() == file_name.len());
    crate::text::lemma_decimal_shape(a + 1);
    crate::text::lemma_decimal_shape(b + 1);
    if a > 0 && b > 0 && trash_name_of(file_name, a) == trash_name_of(file_name, b) {
        let ta = trash_name_of(file_name, a);
        let tb = trash_name_of(file_name, b);
        let da = decimal(a + 1);
        let db = decimal(b + 1);
        let mark = seq!['-', 't', 'r', 'a', 's', 'h', '-'];
        assert(ta == stem + mark + da + ext);
        assert(tb == stem + mark + db + ext);
        assert(da.len() == db.len());
        let from = stem.len() + 7;
        assert(ta.subrange(from as int, (from + da.len()) as int) =~= da);
        assert(tb.subrange(from as int, (from + db.len()) as int) =~= db);
        crate::text::lemma_decimal_injective(a + 1, b + 1);
    }
}

/// Moving one note within the list (a rename, or a failed move put back)
/// keeps every other note and orders the list newest first.
pub proof fn lemma_move_keeps_notes(vs: Seq<NoteView>, index: int, moved: NoteView)
    requires
        0 <= index < vs.len(),
    ensures
        newest_first(vs.remove(index).push(moved)).to_multiset() == vs.to_multiset().remove(
            vs[index],
        ).insert(moved),
        newest_first(vs.remove(index).push(moved)).len() == vs.len(),
        sorted_desc_by(newest_first(vs.remove(index).push(moved)), |v: NoteView| modified_key(v)),
{
    lemma_newest_first(vs.remove(index).push(moved));
    vstd::seq_lib::to_multiset_remove(vs, index);
    vstd::seq_lib::to_multiset_build(vs.remove(index), moved);
}

/// A note modified after every other one comes first once the list is
/// ordered (as after saving it).
pub proof fn lemma_newest_comes_first(vs: Seq<NoteView>, k: int)
    requires
        0 <= k < vs.len(),
        forall|j: int| 0 <= j < vs.len() && j != k ==> (#[trigger] vs[j]).4 < vs[k].4,
    ensures
        newest_first(vs)[0] == vs[k],
{
    lemma_newest_first(vs);
    let r = newest_first(vs);
    let x = vs[k];
    assert(vs.contains(x));
    vstd::seq_lib::to_multiset_contains(vs, x);
    vstd::seq_lib::to_multiset_contains(r, x);
    let p = choose|p: int| 0 <= p < r.len() && r[p] == x;
    assert(r.contains(r[0]));
    vstd::seq_lib::to_multiset_contains(r, r[0]);
    vstd::seq_lib::to_multiset_contains(vs, r[0]);
    let j = choose|j: int| 0 <= j < vs.len() && vs[j] == r[0];
    if r[0] != x {
        assert(j != k);
        assert(vs[j].4 < x.4);
        assert(p > 0);
        assert(modified_key(r[0]) >= modified_key(r[p]));
    }
}

} // verus!
