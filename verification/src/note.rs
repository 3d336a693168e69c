//! A note: its identity (the file stem), its raw content, the tags found in
//! it and its dates, held as unix milliseconds.
use vstd::prelude::*;
use crate::path::{file_stem, file_stem_of, join, join_exec};
use crate::tags::{extract_tag_names, sorted_dedup_of, tag_matches};
use crate::text::{chars_of, string_of};
use crate::util::{
    format_local_millis, millis_in_range, millis_out_of_range, now_millis, shows_local_date,
    signed_decimal,
};

verus! {

/// A note as the library holds it. The file is read and written by the
/// caller; the dates are unix milliseconds in the local time zone's sense of
/// "now" at the moment they were taken.
#[derive(Clone, Debug)]
pub struct Note {
    pub id: String,
    pub title: String,
    pub filepath: String,
    pub content: String,
    pub modified_at: i64,
    pub created_at: i64,
    pub tags: Vec<String>,
}

/// The texts of a list of strings.
pub open spec fn texts(v: Seq<String>) -> Seq<Seq<char>> {
    v.map_values(|t: String| t@)
}

/// `s` with every `/` replaced by `-` (titles may not contain a separator).
pub open spec fn dash_slashes(s: Seq<char>) -> Seq<char> {
    s.map_values(|c: char| if c == '/' { '-' } else { c })
}

/// The file name of a note titled `title`: `<title>.<extension>`.
pub open spec fn file_name_for(title: Seq<char>, extension: Seq<char>) -> Seq<char> {
    title + seq!['.'] + extension
}

/// The title given to a file whose path has no stem.
pub open spec fn untitled() -> Seq<char> {
    seq!['U', 'n', 't', 'i', 't', 'l', 'e', 'd']
}

/// The id and title of the note stored at `path`: the file stem.
pub open spec fn stem_title(path: Seq<char>) -> Seq<char> {
    match file_stem(path) {
        Some(s) => s,
        None => untitled(),
    }
}

/// The tags of a note are those of its content: sorted, without repeats.
pub open spec fn tags_of_content(tags: Seq<Seq<char>>, content: Seq<char>) -> bool {
    sorted_dedup_of(tags, tag_matches(content))
}

/// A copy of `s`.
pub fn copy_string(s: &String) -> (r: String)
    ensures
        r@ == s@,
{
    s.clone()
}

/// A copy of a list of strings.
pub fn copy_strings(v: &Vec<String>) -> (r: Vec<String>)
    ensures
        texts(r@) == texts(v@),
{
    let mut r: Vec<String> = Vec::new();
    let mut i: usize = 0;
    while i < v.len()
        invariant
            i <= v@.len(),
            r@.len() == i,
            forall|k: int| 0 <= k < i ==> #[trigger] r@[k]@ == v@[k]@,
        decreases v@.len() - i,
    {
        r.push(copy_string(&v[i]));
        i += 1;
    }
    assert(texts(r@) =~= texts(v@));
    r
}

/// The characters of `s` with every `/` replaced by `-`.
fn dash_slashes_exec(s: &str) -> (r: Vec<char>)
    ensures
        r@ == dash_slashes(s@),
{
    let v = chars_of(s);
    let mut r: Vec<char> = Vec::new();
    let mut i: usize = 0;
    while i < v.len()
        invariant
            i <= v@.len(),
            v@ == s@,
            r@ == dash_slashes(v@.take(i as int)),
        decreases v@.len() - i,
    {
        let c = v[i];
        r.push(if c == '/' { '-' } else { c });
        i += 1;
        assert(r@ =~= dash_slashes(v@.take(i as int)));
    }
    assert(v@.take(v@.len() as int) =~= v@);
    r
}

impl Note {
    /// Same fields, with the texts copied.
    pub fn duplicate(&self) -> (r: Note)
        ensures
            r.id@ == self.id@,
            r.title@ == self.title@,
            r.filepath@ == self.filepath@,
            r.content@ == self.content@,
            r.modified_at == self.modified_at,
            r.created_at == self.created_at,
            texts(r.tags@) == texts(self.tags@),
    {
        Note {
            id: copy_string(&self.id),
            title: copy_string(&self.title),
            filepath: copy_string(&self.filepath),
            content: copy_string(&self.content),
            modified_at: self.modified_at,
            created_at: self.created_at,
            tags: copy_strings(&self.tags),
        }
    }

    /// The tags of `content`: every `#name` with `name` made of
    /// `a-z A-Z 0-9 _ -`, sorted ascending without repeats.
    pub fn extract_tags(content: &str) -> (r: Vec<String>)
        ensures
            tags_of_content(texts(r@), content@),
    {
        let r = extract_tag_names(content);
        assert(texts(r@) =~= r@.map_values(|t: String| t@));
        r
    }

    /// A fresh, empty note titled `title` (with `/` turned into `-`), whose
    /// file is `<title>.<extension>` in `notes_dir`, created at `now`.
    pub fn new_at(notes_dir: &str, title: &str, extension: &str, now: i64) -> (r: Note)
        ensures
            r.id@ == dash_slashes(title@),
            r.title@ == dash_slashes(title@),
            r.filepath@ == join(notes_dir@, file_name_for(dash_slashes(title@), extension@)),
            r.content@.len() == 0,
            r.modified_at == now,
            r.created_at == now,
            r.tags@.len() == 0,
    {
        let safe = dash_slashes_exec(title);
        let mut name: Vec<char> = safe.clone();
        name.push('.');
        let mut ext = chars_of(extension);
        name.append(&mut ext);
        assert(name@ =~= file_name_for(safe@, extension@));
        let dir = chars_of(notes_dir);
        let path = join_exec(dir.as_slice(), name.as_slice());
        Note {
            id: string_of(safe.as_slice()),
            title: string_of(safe.as_slice()),
            filepath: string_of(path.as_slice()),
            content: String::new(),
            modified_at: now,
            created_at: now,
            tags: Vec::new(),
        }
    }

    /// A fresh, empty note titled `title`, created now (see `new_at`).
    pub fn new(notes_dir: &str, title: &str, extension: &str) -> (r: Note)
        ensures
            r.id@ == dash_slashes(title@),
            r.title@ == dash_slashes(title@),
            r.filepath@ == join(notes_dir@, file_name_for(dash_slashes(title@), extension@)),
            r.content@.len() == 0,
            r.modified_at == r.created_at,
            r.tags@.len() == 0,
    {
        Note::new_at(notes_dir, title, extension, now_millis())
    }

    /// The note stored at `path` with the given content and file dates: its
    /// id and title are the file stem ("Untitled" without one), its tags
    /// those of the content, and its creation date the modification date
    /// where the file system reports none.
    pub fn from_parts(path: &str, content: String, modified_at: i64, created_at: Option<i64>) -> (r:
        Note)
        ensures
            r.id@ == stem_title(path@),
            r.title@ == stem_title(path@),
            r.filepath@ == path@,
            r.content@ == content@,
            tags_of_content(texts(r.tags@), content@),
            r.modified_at == modified_at,
            r.created_at == (match created_at {
                Some(c) => c,
                None => modified_at,
            }),
    {
        let stem: String = match file_stem_of(path) {
            Some(s) => s,
            None => {
                let u = string_of(&['U', 'n', 't', 'i', 't', 'l', 'e', 'd']);
                assert(u@ =~= untitled());
                u
            },
        };
        let tags = Note::extract_tags(content.as_str());
        let created: i64 = match created_at {
            Some(c) => c,
            None => modified_at,
        };
        Note {
            id: copy_string(&stem),
            title: stem,
            filepath: string_of(chars_of(path).as_slice()),
            content,
            modified_at,
            created_at: created,
            tags,
        }
    }

    /// What saving does to the note once its content is on disk: the
    /// modification date becomes `now` and the tags are read again from the
    /// content.
    pub fn record_save(&mut self, now: i64)
        ensures
            final(self).id@ == old(self).id@,
            final(self).title@ == old(self).title@,
            final(self).filepath@ == old(self).filepath@,
            final(self).content@ == old(self).content@,
            final(self).created_at == old(self).created_at,
            final(self).modified_at == now,
            tags_of_content(texts(final(self).tags@), old(self).content@),
    {
        self.modified_at = now;
        self.tags = Note::extract_tags(self.content.as_str());
    }

    /// The modification date as `%Y-%m-%d %H:%M` in local time.
    pub fn formatted_date(&self) -> (s: String)
        ensures
            millis_in_range(self.modified_at as int) ==> shows_local_date(self.modified_at as int, s@),
            millis_out_of_range(self.modified_at as int) ==> s@ == signed_decimal(self.modified_at as int),
            shows_local_date(self.modified_at as int, s@) || s@ == signed_decimal(self.modified_at as int),
    {
        format_local_millis(self.modified_at)
    }

    /// The creation date as `%Y-%m-%d %H:%M` in local time.
    pub fn formatted_created_date(&self) -> (s: String)
        ensures
            millis_in_range(self.created_at as int) ==> shows_local_date(self.created_at as int, s@),
            millis_out_of_range(self.created_at as int) ==> s@ == signed_decimal(self.created_at as int),
            shows_local_date(self.created_at as int, s@) || s@ == signed_decimal(self.created_at as int),
    {
        format_local_millis(self.created_at)
    }
}

} // verus!
