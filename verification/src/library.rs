//! Track library: the persisted record shape, the search criteria,
//! and the sync planner that reconciles the store with the
//! filesystem.
//!
//! One sync pass works in phases that only meet in the store: the
//! scan phase lists the files on disk and plans an insertion for
//! every file with no fresh record, together with the deletion of the
//! stale rows those insertions supersede — records are never mutated
//! in place, they are deleted and reinserted; the cleanup phase plans
//! a deletion for every record whose backing file vanished. All plans
//! are computed here, from plain values; the unverified shell walks
//! the directory, reads the rows and applies each plan in one
//! transaction.

use vstd::prelude::*;
use crate::strings::{spec_parse_u64, spec_dec_string, parse_u64, u64_to_dec_string, str_eq};
use crate::utils::{get_pin_yin, spec_pin_yin};
use crate::sort::{SortKeyed, spec_stable_sort, spec_sorted_by_key, stable_sort_by_key};

verus! {

/// A persisted track record, one row of the store's single table.
/// The duration is held in whole seconds, the modification stamp as
/// decimal text of Unix seconds, both as the store's columns hold
/// them.
pub struct TrackForDB {
    pub id: u64,
    pub artist: String,
    pub title: String,
    pub album: String,
    pub genre: String,
    pub file: String,
    pub duration: u64,
    pub name: String,
    pub ext: String,
    pub directory: String,
    pub last_modified: String,
}

impl SortKeyed for TrackForDB {
    open spec fn key_view(&self) -> Seq<char> {
        spec_pin_yin(self.name@)
    }

    fn sort_key(&self) -> (r: String)
        ensures
            r@ == self.key_view(),
    {
        get_pin_yin(self.name.as_str())
    }
}

/// The grouping column a listing goes by.
#[derive(Clone, Copy, PartialEq, Eq, Structural, Debug)]
pub enum SearchCriteria {
    Artist,
    Album,
    Genre,
    Directory,
}

/// Which criteria an index selects: 1, 2 and 3 pick album, genre and
/// directory; everything else falls back to artist.
pub open spec fn spec_criteria_from(u_index: usize) -> SearchCriteria {
    if u_index == 1 {
        SearchCriteria::Album
    } else if u_index == 2 {
        SearchCriteria::Genre
    } else if u_index == 3 {
        SearchCriteria::Directory
    } else {
        SearchCriteria::Artist
    }
}

impl core::convert::From<usize> for SearchCriteria {
    fn from(u_index: usize) -> (r: Self) {
        match u_index {
            1 => SearchCriteria::Album,
            2 => SearchCriteria::Genre,
            3 => SearchCriteria::Directory,
            _ => SearchCriteria::Artist,
        }
    }
}

impl vstd::std_specs::convert::FromSpecImpl<usize> for SearchCriteria {
    open spec fn obeys_from_spec() -> bool {
        true
    }

    open spec fn from_spec(u_index: usize) -> Self {
        spec_criteria_from(u_index)
    }
}

/// The column name of a criteria.
pub open spec fn spec_column_name(c: SearchCriteria) -> Seq<char> {
    match c {
        SearchCriteria::Artist => "artist"@,
        SearchCriteria::Album => "album"@,
        SearchCriteria::Genre => "genre"@,
        SearchCriteria::Directory => "directory"@,
    }
}

impl SearchCriteria {
    /// The name of the column this criteria groups by.
    pub fn column_name(&self) -> (r: &'static str)
        ensures
            r@ == spec_column_name(*self),
    {
        match self {
            SearchCriteria::Artist => "artist",
            SearchCriteria::Album => "album",
            SearchCriteria::Genre => "genre",
            SearchCriteria::Directory => "directory",
        }
    }
}

/// A running schema version above the stored one drops and recreates
/// the table: the destructive migration policy.
pub fn needs_destructive_migration(running_version: u32, stored_version: u32) -> (r: bool)
    ensures
        r == (running_version > stored_version),
{
    running_version > stored_version
}

/// The metadata a file scan yields, each field absent when the tags
/// do not carry it.
pub struct TrackMeta {
    pub artist: Option<String>,
    pub title: Option<String>,
    pub album: Option<String>,
    pub genre: Option<String>,
    pub file: Option<String>,
    pub duration_secs: u64,
    pub name: Option<String>,
    pub ext: Option<String>,
    pub directory: Option<String>,
    pub last_modified_secs: u64,
}

/// Build the record a scanned track is stored as: absent tags fall
/// back to their fixed placeholders, the modification stamp becomes
/// decimal text, and the surrogate id is left for the store to
/// assign.
pub fn track_to_record(m: TrackMeta) -> (r: TrackForDB)
    ensures
        r.id == 0,
        m.artist matches Some(a) ==> r.artist == a,
        m.artist is None ==> r.artist@ == "Unknown Artist"@,
        m.title matches Some(t) ==> r.title == t,
        m.title is None ==> r.title@ == "Unknown Title"@,
        m.album matches Some(a) ==> r.album == a,
        m.album is None ==> r.album@ == "empty"@,
        m.genre matches Some(g) ==> r.genre == g,
        m.genre is None ==> r.genre@ == "no type"@,
        m.file matches Some(f) ==> r.file == f,
        m.file is None ==> r.file@ == "Unknown File"@,
        r.duration == m.duration_secs,
        m.name matches Some(n) ==> r.name == n,
        m.name is None ==> r.name@ == Seq::<char>::empty(),
        m.ext matches Some(e) ==> r.ext == e,
        m.ext is None ==> r.ext@ == Seq::<char>::empty(),
        m.directory matches Some(d) ==> r.directory == d,
        m.directory is None ==> r.directory@ == Seq::<char>::empty(),
        r.last_modified@ == spec_dec_string(m.last_modified_secs as int),
{
    let artist = match m.artist {
        Some(a) => a,
        None => String::from_str("Unknown Artist"),
    };
    let title = match m.title {
        Some(t) => t,
        None => String::from_str("Unknown Title"),
    };
    let album = match m.album {
        Some(a) => a,
        None => String::from_str("empty"),
    };
    let genre = match m.genre {
        Some(g) => g,
        None => String::from_str("no type"),
    };
    let file = match m.file {
        Some(f) => f,
        None => String::from_str("Unknown File"),
    };
    let name = match m.name {
        Some(n) => n,
        None => String::new(),
    };
    let ext = match m.ext {
        Some(e) => e,
        None => String::new(),
    };
    let directory = match m.directory {
        Some(d) => d,
        None => String::new(),
    };
    let last_modified = u64_to_dec_string(m.last_modified_secs);
    TrackForDB {
        id: 0,
        artist,
        title,
        album,
        genre,
        file,
        duration: m.duration_secs,
        name,
        ext,
        directory,
        last_modified,
    }
}

/// The characters after the last dot of a path; nothing when it has
/// no dot.
pub open spec fn spec_ext_of(s: Seq<char>) -> Option<Seq<char>>
    decreases s.len(),
{
    if s.len() == 0 {
        None
    } else if s.last() == '.' {
        Some(Seq::<char>::empty())
    } else {
        match spec_ext_of(s.drop_last()) {
            Some(e) => Some(e.push(s.last())),
            None => None,
        }
    }
}

/// The recognized audio file extensions.
pub open spec fn spec_supported_ext(e: Seq<char>) -> bool {
    ||| e == "mp3"@
    ||| e == "m4a"@
    ||| e == "flac"@
    ||| e == "ogg"@
    ||| e == "opus"@
    ||| e == "aiff"@
    ||| e == "wav"@
}

/// A path is scanned when its extension is a recognized audio one.
pub open spec fn spec_filetype_supported(s: Seq<char>) -> bool {
    match spec_ext_of(s) {
        Some(e) => spec_supported_ext(e),
        None => false,
    }
}

/// Decide whether a path names a recognized audio file, by its
/// extension.
pub fn filetype_supported(path: &str) -> (r: bool)
    ensures
        r == spec_filetype_supported(path@),
{
    let n = path.unicode_len();
    let mut i: usize = n;
    proof {
        assert(path@.take(n as int) =~= path@);
        match spec_ext_of(path@) {
            Some(e) => {
                assert(e + path@.skip(n as int) =~= e);
            },
            None => {},
        }
    }
    while i > 0
        invariant
            0 <= i <= n,
            n == path@.len(),
            forall|j: int| i <= j < n ==> path@[j] != '.',
            spec_ext_of(path@) == spec_ext_of_from(path@, i as int),
        decreases i,
    {
        let c = path.get_char(i - 1);
        if c == '.' {
            proof {
                lemma_ext_after_dot(path@, i as int);
            }
            let ext = path.substring_char(i, n);
            proof {
                assert(ext@ =~= path@.skip(i as int));
            }
            let supported = str_eq(ext, "mp3") || str_eq(ext, "m4a") || str_eq(ext, "flac")
                || str_eq(ext, "ogg") || str_eq(ext, "opus") || str_eq(ext, "aiff") || str_eq(
                ext,
                "wav",
            );
            return supported;
        }
        proof {
            lemma_ext_skips_non_dot(path@, i as int);
        }
        i -= 1;
    }
    proof {
        lemma_ext_none_without_dot(path@);
    }
    false
}

/// The extension of `s`, knowing no dot stands at or after `i`.
pub open spec fn spec_ext_of_from(s: Seq<char>, i: int) -> Option<Seq<char>> {
    match spec_ext_of(s.take(i)) {
        Some(e) => Some(e + s.skip(i)),
        None => None,
    }
}

/// With a dot right before `i`, the extension is everything after it.
pub proof fn lemma_ext_after_dot(s: Seq<char>, i: int)
    requires
        0 < i <= s.len(),
        s[i - 1] == '.',
    ensures
        spec_ext_of_from(s, i) == Some(s.skip(i)),
{
    assert(s.take(i).last() == '.');
    assert(spec_ext_of(s.take(i)) == Some(Seq::<char>::empty()));
    assert(Seq::<char>::empty() + s.skip(i) =~= s.skip(i));
}

/// A non-dot at `i - 1` moves the split point left.
pub proof fn lemma_ext_skips_non_dot(s: Seq<char>, i: int)
    requires
        0 < i <= s.len(),
        s[i - 1] != '.',
    ensures
        spec_ext_of_from(s, i) == spec_ext_of_from(s, i - 1),
{
    let t = s.take(i);
    assert(t.last() == s[i - 1]);
    assert(t.drop_last() =~= s.take(i - 1));
    match spec_ext_of(s.take(i - 1)) {
        Some(e) => {
            assert(spec_ext_of(t) == Some(e.push(s[i - 1])));
            assert(e.push(s[i - 1]) + s.skip(i) =~= e + s.skip(i - 1));
        },
        None => {
            assert(spec_ext_of(t) is None);
        },
    }
}

/// A string with no dot has no extension.
pub proof fn lemma_ext_none_without_dot(s: Seq<char>)
    requires
        forall|j: int| 0 <= j < s.len() ==> s[j] != '.',
    ensures
        spec_ext_of(s) is None,
    decreases s.len(),
{
    if s.len() > 0 {
        lemma_ext_none_without_dot(s.drop_last());
    }
}

/// What one directory scan saw of one file: its path, its file name,
/// and its modification time in Unix seconds.
pub struct ScannedFile {
    pub file: String,
    pub name: String,
    pub last_modified: u64,
}

/// A stored record blocks re-insertion of a scanned file when it has
/// the file's name and a readable stamp at or above the file's
/// modification time. A record whose stamp cannot be read counts as
/// stale and never blocks.
pub open spec fn spec_record_blocks(t: TrackForDB, f: ScannedFile) -> bool {
    t.name@ == f.name@ && (spec_parse_u64(t.last_modified@) matches Some(lm) && f.last_modified
        <= lm)
}

/// A scanned file needs an insertion when no stored record blocks it:
/// it is new, or every record of its name is older.
pub open spec fn spec_needs_insert(f: ScannedFile, stored: Seq<TrackForDB>) -> bool {
    forall|j: int| 0 <= j < stored.len() ==> !spec_record_blocks(#[trigger] stored[j], f)
}

/// The insertion plan of one sync pass: the scanned files that need
/// an insertion, in scan order.
pub open spec fn spec_insert_plan(files: Seq<ScannedFile>, stored: Seq<TrackForDB>) -> Seq<
    ScannedFile,
>
    decreases files.len(),
{
    if files.len() == 0 {
        Seq::<ScannedFile>::empty()
    } else {
        let rest = spec_insert_plan(files.drop_last(), stored);
        if spec_needs_insert(files.last(), stored) {
            rest.push(files.last())
        } else {
            rest
        }
    }
}

/// Whether one of `paths` reads `p`.
pub open spec fn spec_contains_str(paths: Seq<String>, p: Seq<char>) -> bool {
    exists|i: int| 0 <= i < paths.len() && #[trigger] paths[i]@ == p
}

/// The deletion plan of one sync pass: the stored file paths whose
/// backing file vanished, in store order.
pub open spec fn spec_delete_plan(stored: Seq<TrackForDB>, existing: Seq<String>) -> Seq<String>
    decreases stored.len(),
{
    if stored.len() == 0 {
        Seq::<String>::empty()
    } else {
        let rest = spec_delete_plan(stored.drop_last(), existing);
        if !spec_contains_str(existing, stored.last().file@) {
            rest.push(stored.last().file)
        } else {
            rest
        }
    }
}

/// Decide whether `f` must be (re)inserted, against the stored
/// records.
pub fn needs_insert(f: &ScannedFile, stored: &Vec<TrackForDB>) -> (r: bool)
    ensures
        r == spec_needs_insert(*f, stored@),
{
    let mut j: usize = 0;
    while j < stored.len()
        invariant
            0 <= j <= stored@.len(),
            forall|i: int| 0 <= i < j ==> !spec_record_blocks(#[trigger] stored@[i], *f),
        decreases stored@.len() - j,
    {
        let t = &stored[j];
        if str_eq(t.name.as_str(), f.name.as_str()) {
            match parse_u64(t.last_modified.as_str()) {
                Some(lm) => {
                    if f.last_modified <= lm {
                        proof {
                            assert(spec_record_blocks(stored@[j as int], *f));
                        }
                        return false;
                    }
                },
                None => {},
            }
        }
        j += 1;
    }
    true
}

/// Plan the insertions of one sync pass: every scanned file that no
/// stored record blocks, in scan order.
pub fn plan_inserts(files: Vec<ScannedFile>, stored: &Vec<TrackForDB>) -> (r: Vec<ScannedFile>)
    ensures
        r@ == spec_insert_plan(files@, stored@),
{
    let ghost orig = files@;
    let mut rem = files;
    let mut out: Vec<ScannedFile> = Vec::new();
    proof {
        assert(orig.take(0) =~= Seq::<ScannedFile>::empty());
        assert(out@ =~= spec_insert_plan(orig.take(0), stored@));
    }
    while rem.len() > 0
        invariant
            rem@ == orig.skip(orig.len() - rem@.len()),
            rem@.len() <= orig.len(),
            out@ == spec_insert_plan(orig.take(orig.len() - rem@.len()), stored@),
        decreases rem@.len(),
    {
        let ghost k: int = orig.len() - rem@.len();
        let f = rem.remove(0);
        proof {
            assert(f == orig.skip(k)[0]);
            assert(f == orig[k]);
            assert(rem@ =~= orig.skip(k + 1));
            assert(orig.take(k + 1).drop_last() =~= orig.take(k));
            assert(orig.take(k + 1).last() == orig[k]);
        }
        let ins = needs_insert(&f, stored);
        if ins {
            out.push(f);
        }
        proof {
            assert(out@ =~= spec_insert_plan(orig.take(k + 1), stored@));
        }
    }
    proof {
        assert(orig.take(orig.len() - 0) =~= orig);
    }
    out
}

/// Whether `p` stands among `paths`.
pub fn contains_path(paths: &Vec<String>, p: &str) -> (r: bool)
    ensures
        r == spec_contains_str(paths@, p@),
{
    let mut i: usize = 0;
    while i < paths.len()
        invariant
            0 <= i <= paths@.len(),
            forall|j: int| 0 <= j < i ==> #[trigger] paths@[j]@ != p@,
        decreases paths@.len() - i,
    {
        if str_eq(paths[i].as_str(), p) {
            return true;
        }
        i += 1;
    }
    false
}

/// Plan the deletions of one sync pass: the file path of every stored
/// record whose backing file no longer exists, in store order.
pub fn plan_deletes(stored: Vec<TrackForDB>, existing: &Vec<String>) -> (r: Vec<String>)
    ensures
        r@ == spec_delete_plan(stored@, existing@),
{
    let ghost orig = stored@;
    let mut rem = stored;
    let mut out: Vec<String> = Vec::new();
    proof {
        assert(orig.take(0) =~= Seq::<TrackForDB>::empty());
        assert(out@ =~= spec_delete_plan(orig.take(0), existing@));
    }
    while rem.len() > 0
        invariant
            rem@ == orig.skip(orig.len() - rem@.len()),
            rem@.len() <= orig.len(),
            out@ == spec_delete_plan(orig.take(orig.len() - rem@.len()), existing@),
        decreases rem@.len(),
    {
        let ghost k: int = orig.len() - rem@.len();
        let t = rem.remove(0);
        proof {
            assert(t == orig.skip(k)[0]);
            assert(t == orig[k]);
            assert(rem@ =~= orig.skip(k + 1));
            assert(orig.take(k + 1).drop_last() =~= orig.take(k));
            assert(orig.take(k + 1).last() == orig[k]);
        }
        let gone = !contains_path(existing, t.file.as_str());
        if gone {
            out.push(t.file);
        }
        proof {
            assert(out@ =~= spec_delete_plan(orig.take(k + 1), existing@));
        }
    }
    proof {
        assert(orig.take(orig.len() - 0) =~= orig);
    }
    out
}

/// How many scanned files carry the path `p`.
pub open spec fn spec_count_file(s: Seq<ScannedFile>, p: Seq<char>) -> nat
    decreases s.len(),
{
    if s.len() == 0 {
        0
    } else {
        spec_count_file(s.drop_last(), p) + (if s.last().file@ == p {
            1nat
        } else {
            0nat
        })
    }
}

/// How many of `s` read `p`.
pub open spec fn spec_count_path(s: Seq<String>, p: Seq<char>) -> nat
    decreases s.len(),
{
    if s.len() == 0 {
        0
    } else {
        spec_count_path(s.drop_last(), p) + (if s.last()@ == p {
            1nat
        } else {
            0nat
        })
    }
}

/// How many stored records carry the file path `p`.
pub open spec fn spec_count_record_file(s: Seq<TrackForDB>, p: Seq<char>) -> nat
    decreases s.len(),
{
    if s.len() == 0 {
        0
    } else {
        spec_count_record_file(s.drop_last(), p) + (if s.last().file@ == p {
            1nat
        } else {
            0nat
        })
    }
}

/// A file no stored record is named after needs an insertion.
pub proof fn lemma_absent_name_needs_insert(f: ScannedFile, stored: Seq<TrackForDB>)
    requires
        forall|j: int| 0 <= j < stored.len() ==> (#[trigger] stored[j]).name@ != f.name@,
    ensures
        spec_needs_insert(f, stored),
{
}

/// The insertion plan carries a path exactly as often as the scan
/// did, provided every scanned file of that path needs insertion: in
/// particular, a file on disk and absent from the store is inserted
/// exactly once.
pub proof fn lemma_insert_plan_count(files: Seq<ScannedFile>, stored: Seq<TrackForDB>, p: Seq<char>)
    requires
        forall|i: int|
            0 <= i < files.len() && (#[trigger] files[i]).file@ == p ==> spec_needs_insert(
                files[i],
                stored,
            ),
    ensures
        spec_count_file(spec_insert_plan(files, stored), p) == spec_count_file(files, p),
    decreases files.len(),
{
    if files.len() > 0 {
        let rest = files.drop_last();
        assert forall|i: int|
            0 <= i < rest.len() && (#[trigger] rest[i]).file@ == p implies spec_needs_insert(
            rest[i],
            stored,
        ) by {
            assert(rest[i] == files[i]);
        }
        lemma_insert_plan_count(rest, stored, p);
        assert(files.last() == files[files.len() - 1]);
        let plan_rest = spec_insert_plan(rest, stored);
        if spec_needs_insert(files.last(), stored) {
            let plan = plan_rest.push(files.last());
            assert(plan.drop_last() =~= plan_rest);
            assert(plan.last() == files.last());
        }
    }
}

/// The deletion plan names a vanished path exactly as often as the
/// store holds it: a record whose file was deleted from disk is
/// deleted exactly once.
pub proof fn lemma_delete_plan_count(stored: Seq<TrackForDB>, existing: Seq<String>, p: Seq<char>)
    requires
        !spec_contains_str(existing, p),
    ensures
        spec_count_path(spec_delete_plan(stored, existing), p) == spec_count_record_file(stored, p),
    decreases stored.len(),
{
    if stored.len() > 0 {
        let rest = stored.drop_last();
        lemma_delete_plan_count(rest, existing, p);
        let plan_rest = spec_delete_plan(rest, existing);
        if !spec_contains_str(existing, stored.last().file@) {
            let plan = plan_rest.push(stored.last().file);
            assert(plan.drop_last() =~= plan_rest);
            assert(plan.last() == stored.last().file);
        }
    }
}

/// A path still on disk never enters the deletion plan.
pub proof fn lemma_present_file_not_deleted(
    stored: Seq<TrackForDB>,
    existing: Seq<String>,
    p: Seq<char>,
)
    requires
        spec_contains_str(existing, p),
    ensures
        spec_count_path(spec_delete_plan(stored, existing), p) == 0,
    decreases stored.len(),
{
    if stored.len() > 0 {
        let rest = stored.drop_last();
        lemma_present_file_not_deleted(rest, existing, p);
        let plan_rest = spec_delete_plan(rest, existing);
        if !spec_contains_str(existing, stored.last().file@) {
            let plan = plan_rest.push(stored.last().file);
            assert(plan.drop_last() =~= plan_rest);
            assert(plan.last() == stored.last().file);
            assert(stored.last().file@ != p);
        }
    }
}

/// The store is in sync with the disk when every stored record's file
/// exists and no scanned file needs an insertion.
pub open spec fn spec_store_in_sync(
    files: Seq<ScannedFile>,
    stored: Seq<TrackForDB>,
    existing: Seq<String>,
) -> bool {
    &&& forall|j: int|
        0 <= j < stored.len() ==> spec_contains_str(existing, (#[trigger] stored[j]).file@)
    &&& forall|i: int| 0 <= i < files.len() ==> !spec_needs_insert(#[trigger] files[i], stored)
}

/// Nothing to insert leaves the insertion plan empty.
pub proof fn lemma_insert_plan_empty(files: Seq<ScannedFile>, stored: Seq<TrackForDB>)
    requires
        forall|i: int| 0 <= i < files.len() ==> !spec_needs_insert(#[trigger] files[i], stored),
    ensures
        spec_insert_plan(files, stored) =~= Seq::<ScannedFile>::empty(),
    decreases files.len(),
{
    if files.len() > 0 {
        let rest = files.drop_last();
        assert forall|i: int| 0 <= i < rest.len() implies !spec_needs_insert(
            #[trigger] rest[i],
            stored,
        ) by {
            assert(rest[i] == files[i]);
        }
        lemma_insert_plan_empty(rest, stored);
        assert(files.last() == files[files.len() - 1]);
    }
}

/// Nothing missing leaves the deletion plan empty.
pub proof fn lemma_delete_plan_empty(stored: Seq<TrackForDB>, existing: Seq<String>)
    requires
        forall|j: int|
            0 <= j < stored.len() ==> spec_contains_str(existing, (#[trigger] stored[j]).file@),
    ensures
        spec_delete_plan(stored, existing) =~= Seq::<String>::empty(),
    decreases stored.len(),
{
    if stored.len() > 0 {
        let rest = stored.drop_last();
        assert forall|j: int| 0 <= j < rest.len() implies spec_contains_str(
            existing,
            (#[trigger] rest[j]).file@,
        ) by {
            assert(rest[j] == stored[j]);
        }
        lemma_delete_plan_empty(rest, existing);
        assert(stored.last() == stored[stored.len() - 1]);
    }
}

/// Nothing planned for insertion supersedes nothing.
pub proof fn lemma_replace_plan_empty_rec(
    files: Seq<ScannedFile>,
    part: Seq<TrackForDB>,
    stored: Seq<TrackForDB>,
)
    requires
        forall|i: int| 0 <= i < files.len() ==> !spec_needs_insert(#[trigger] files[i], stored),
    ensures
        spec_replace_plan_rec(files, part, stored) =~= Seq::<String>::empty(),
    decreases part.len(),
{
    if part.len() > 0 {
        lemma_replace_plan_empty_rec(files, part.drop_last(), stored);
    }
}

/// Re-running a sync pass over a store already in sync plans zero
/// insertions, zero replacements and zero deletions: one pass is
/// idempotent.
pub proof fn lemma_sync_idempotent(
    files: Seq<ScannedFile>,
    stored: Seq<TrackForDB>,
    existing: Seq<String>,
)
    requires
        spec_store_in_sync(files, stored, existing),
    ensures
        spec_insert_plan(files, stored) =~= Seq::<ScannedFile>::empty(),
        spec_replace_plan(files, stored) =~= Seq::<String>::empty(),
        spec_delete_plan(stored, existing) =~= Seq::<String>::empty(),
{
    lemma_insert_plan_empty(files, stored);
    lemma_replace_plan_empty_rec(files, stored, stored);
    lemma_delete_plan_empty(stored, existing);
}

/// The records that survive one pass's deletions, over the part of
/// the store walked so far: those whose backing file still exists and
/// that no planned insertion supersedes.
pub open spec fn spec_surviving_rec(
    files: Seq<ScannedFile>,
    part: Seq<TrackForDB>,
    stored: Seq<TrackForDB>,
    existing: Seq<String>,
) -> Seq<TrackForDB>
    decreases part.len(),
{
    if part.len() == 0 {
        Seq::<TrackForDB>::empty()
    } else {
        let rest = spec_surviving_rec(files, part.drop_last(), stored, existing);
        if spec_contains_str(existing, part.last().file@) && !spec_superseded(
            part.last(),
            files,
            stored,
        ) {
            rest.push(part.last())
        } else {
            rest
        }
    }
}

/// The records that survive one pass's deletions: file still on
/// disk, not superseded by a planned insertion.
pub open spec fn spec_surviving_records(
    files: Seq<ScannedFile>,
    stored: Seq<TrackForDB>,
    existing: Seq<String>,
) -> Seq<TrackForDB> {
    spec_surviving_rec(files, stored, stored, existing)
}

/// Every surviving record's file exists.
pub proof fn lemma_surviving_all_present(
    files: Seq<ScannedFile>,
    part: Seq<TrackForDB>,
    stored: Seq<TrackForDB>,
    existing: Seq<String>,
)
    ensures
        forall|j: int|
            0 <= j < spec_surviving_rec(files, part, stored, existing).len() ==> spec_contains_str(
                existing,
                (#[trigger] spec_surviving_rec(files, part, stored, existing)[j]).file@,
            ),
    decreases part.len(),
{
    if part.len() > 0 {
        lemma_surviving_all_present(files, part.drop_last(), stored, existing);
        let rest = spec_surviving_rec(files, part.drop_last(), stored, existing);
        if spec_contains_str(existing, part.last().file@) && !spec_superseded(
            part.last(),
            files,
            stored,
        ) {
            assert forall|j: int|
                0 <= j < rest.push(part.last()).len() implies spec_contains_str(
                existing,
                (#[trigger] rest.push(part.last())[j]).file@,
            ) by {
                if j < rest.len() {
                    assert(rest.push(part.last())[j] == rest[j]);
                } else {
                    assert(rest.push(part.last())[j] == part.last());
                }
            }
        }
    }
}

/// A stored record whose file exists and that nothing supersedes
/// survives the pass.
pub proof fn lemma_surviving_retains(
    files: Seq<ScannedFile>,
    part: Seq<TrackForDB>,
    stored: Seq<TrackForDB>,
    existing: Seq<String>,
    t: TrackForDB,
)
    requires
        part.contains(t),
        spec_contains_str(existing, t.file@),
        !spec_superseded(t, files, stored),
    ensures
        spec_surviving_rec(files, part, stored, existing).contains(t),
    decreases part.len(),
{
    let i = choose|i: int| 0 <= i < part.len() && part[i] == t;
    let rest = spec_surviving_rec(files, part.drop_last(), stored, existing);
    if i == part.len() - 1 {
        assert(part.last() == t);
        assert(rest.push(t)[rest.len() as int] == t);
    } else {
        assert(part.drop_last()[i] == t);
        assert(part.drop_last().contains(t));
        lemma_surviving_retains(files, part.drop_last(), stored, existing, t);
        let j = choose|j: int| 0 <= j < rest.len() && rest[j] == t;
        if spec_contains_str(existing, part.last().file@) && !spec_superseded(
            part.last(),
            files,
            stored,
        ) {
            assert(rest.push(part.last())[j] == t);
        }
    }
}

/// Every planned insertion is one of the scanned files, and needed.
pub proof fn lemma_insert_plan_elements(files: Seq<ScannedFile>, stored: Seq<TrackForDB>)
    ensures
        forall|j: int|
            0 <= j < spec_insert_plan(files, stored).len() ==> files.contains(
                #[trigger] spec_insert_plan(files, stored)[j],
            ) && spec_needs_insert(spec_insert_plan(files, stored)[j], stored),
    decreases files.len(),
{
    if files.len() > 0 {
        let rest = files.drop_last();
        lemma_insert_plan_elements(rest, stored);
        let plan_rest = spec_insert_plan(rest, stored);
        let plan = spec_insert_plan(files, stored);
        assert forall|j: int| 0 <= j < plan.len() implies files.contains(#[trigger] plan[j])
            && spec_needs_insert(plan[j], stored) by {
            if j < plan_rest.len() {
                assert(plan[j] == plan_rest[j]);
                assert(rest.contains(plan_rest[j]));
                let i = choose|i: int| 0 <= i < rest.len() && rest[i] == plan_rest[j];
                assert(files[i] == plan[j]);
            } else {
                assert(plan[j] == files.last());
                assert(files[files.len() - 1] == files.last());
            }
        }
    }
}

/// A scanned file that needs insertion stands in the plan.
pub proof fn lemma_needed_file_in_plan(files: Seq<ScannedFile>, stored: Seq<TrackForDB>, i: int)
    requires
        0 <= i < files.len(),
        spec_needs_insert(files[i], stored),
    ensures
        spec_insert_plan(files, stored).contains(files[i]),
    decreases files.len(),
{
    let plan = spec_insert_plan(files, stored);
    let rest = files.drop_last();
    if i == files.len() - 1 {
        assert(files.last() == files[i]);
        let plan_rest = spec_insert_plan(rest, stored);
        assert(plan == plan_rest.push(files[i]));
        assert(plan[plan_rest.len() as int] == files[i]);
    } else {
        assert(rest[i] == files[i]);
        lemma_needed_file_in_plan(rest, stored, i);
        let plan_rest = spec_insert_plan(rest, stored);
        let j = choose|j: int| 0 <= j < plan_rest.len() && plan_rest[j] == files[i];
        if spec_needs_insert(files.last(), stored) {
            assert(plan_rest.push(files.last())[j] == files[i]);
        }
    }
}

/// One sync pass settles the store: afterwards every surviving or
/// inserted record's file exists, and no scanned file needs an
/// insertion any more — so the next pass plans nothing.
///
/// `inserted` are the records the insertion plan was stored as, built
/// like `track_to_record` builds them: same name, same path, and the
/// modification time as decimal text. The pass settles provided every
/// scanned file exists on disk and no record that blocks a scanned
/// file has itself lost its backing file.
pub proof fn lemma_sync_pass_settles(
    files: Seq<ScannedFile>,
    stored: Seq<TrackForDB>,
    existing: Seq<String>,
    inserted: Seq<TrackForDB>,
)
    requires
        forall|i: int|
            0 <= i < files.len() ==> spec_contains_str(existing, (#[trigger] files[i]).file@),
        forall|i: int, j: int|
            0 <= i < files.len() && 0 <= j < stored.len() && spec_record_blocks(
                #[trigger] stored[j],
                #[trigger] files[i],
            ) ==> spec_contains_str(existing, stored[j].file@),
        inserted.len() == spec_insert_plan(files, stored).len(),
        forall|j: int|
            0 <= j < inserted.len() ==> (#[trigger] inserted[j]).name@ == spec_insert_plan(
                files,
                stored,
            )[j].name@ && inserted[j].file@ == spec_insert_plan(files, stored)[j].file@
                && inserted[j].last_modified@ == spec_dec_string(
                spec_insert_plan(files, stored)[j].last_modified as int,
            ),
    ensures
        spec_store_in_sync(files, spec_surviving_records(files, stored, existing) + inserted, existing),
{
    let survivors = spec_surviving_records(files, stored, existing);
    let plan = spec_insert_plan(files, stored);
    let new_stored = survivors + inserted;
    lemma_surviving_all_present(files, stored, stored, existing);
    lemma_insert_plan_elements(files, stored);
    assert forall|j: int| 0 <= j < new_stored.len() implies spec_contains_str(
        existing,
        (#[trigger] new_stored[j]).file@,
    ) by {
        if j < survivors.len() {
            assert(new_stored[j] == survivors[j]);
        } else {
            let j2 = j - survivors.len();
            assert(new_stored[j] == inserted[j2]);
            assert(files.contains(plan[j2]));
            let i = choose|i: int| 0 <= i < files.len() && files[i] == plan[j2];
            assert(inserted[j2].file@ == files[i].file@);
        }
    }
    assert forall|i: int| 0 <= i < files.len() implies !spec_needs_insert(
        #[trigger] files[i],
        new_stored,
    ) by {
        let f = files[i];
        if spec_needs_insert(f, stored) {
            lemma_needed_file_in_plan(files, stored, i);
            let j = choose|j: int| 0 <= j < plan.len() && plan[j] == f;
            crate::strings::lemma_parse_of_dec_string(f.last_modified);
            assert(inserted[j].name@ == f.name@);
            assert(spec_parse_u64(inserted[j].last_modified@) == Some(f.last_modified));
            assert(spec_record_blocks(inserted[j], f));
            assert(new_stored[survivors.len() + j] == inserted[j]);
            assert(!spec_needs_insert(f, new_stored));
        } else {
            let j = choose|j: int|
                0 <= j < stored.len() && spec_record_blocks(#[trigger] stored[j], f);
            let t = stored[j];
            assert(spec_contains_str(existing, t.file@));
            if spec_superseded(t, files, stored) {
                // the blocker itself is replaced; the fresh record of
                // its name is at least as new and blocks in its stead
                let gi = choose|gi: int|
                    0 <= gi < files.len() && (#[trigger] files[gi]).name@ == t.name@
                        && spec_needs_insert(files[gi], stored);
                let g = files[gi];
                lemma_needed_file_in_plan(files, stored, gi);
                let j2 = choose|j2: int| 0 <= j2 < plan.len() && plan[j2] == g;
                crate::strings::lemma_parse_of_dec_string(g.last_modified);
                assert(!spec_record_blocks(t, g));
                assert(spec_parse_u64(t.last_modified@) matches Some(lm) && f.last_modified <= lm
                    < g.last_modified);
                assert(inserted[j2].name@ == f.name@);
                assert(spec_parse_u64(inserted[j2].last_modified@) == Some(g.last_modified));
                assert(spec_record_blocks(inserted[j2], f));
                assert(new_stored[survivors.len() + j2] == inserted[j2]);
                assert(!spec_needs_insert(f, new_stored));
            } else {
                assert(stored.contains(t));
                lemma_surviving_retains(files, stored, stored, existing, t);
                let k = choose|k: int| 0 <= k < survivors.len() && survivors[k] == t;
                assert(new_stored[k] == t);
                assert(spec_record_blocks(new_stored[k], f));
                assert(!spec_needs_insert(f, new_stored));
            }
        }
    }
}

/// How many scanned files carry the name `n`.
pub open spec fn spec_count_scan_name(s: Seq<ScannedFile>, n: Seq<char>) -> nat
    decreases s.len(),
{
    if s.len() == 0 {
        0
    } else {
        spec_count_scan_name(s.drop_last(), n) + (if s.last().name@ == n {
            1nat
        } else {
            0nat
        })
    }
}

/// How many stored records carry the name `n`.
pub open spec fn spec_count_record_name(s: Seq<TrackForDB>, n: Seq<char>) -> nat
    decreases s.len(),
{
    if s.len() == 0 {
        0
    } else {
        spec_count_record_name(s.drop_last(), n) + (if s.last().name@ == n {
            1nat
        } else {
            0nat
        })
    }
}

/// A stored record is superseded when a scanned file of its name is
/// planned for insertion: records are never mutated in place, so the
/// stale rows of that name are deleted and the fresh one inserted.
pub open spec fn spec_superseded(
    t: TrackForDB,
    files: Seq<ScannedFile>,
    stored: Seq<TrackForDB>,
) -> bool {
    exists|i: int|
        0 <= i < files.len() && (#[trigger] files[i]).name@ == t.name@ && spec_needs_insert(
            files[i],
            stored,
        )
}

/// The replacement plan over the part of the store walked so far;
/// `stored` stays the whole store, which the insertion decisions go
/// by.
pub open spec fn spec_replace_plan_rec(
    files: Seq<ScannedFile>,
    part: Seq<TrackForDB>,
    stored: Seq<TrackForDB>,
) -> Seq<String>
    decreases part.len(),
{
    if part.len() == 0 {
        Seq::<String>::empty()
    } else {
        let rest = spec_replace_plan_rec(files, part.drop_last(), stored);
        if spec_superseded(part.last(), files, stored) {
            rest.push(part.last().file)
        } else {
            rest
        }
    }
}

/// The replacement plan of one sync pass: the file paths of the
/// stored records that a planned insertion supersedes, in store
/// order. The shell deletes them before it applies the insertions.
pub open spec fn spec_replace_plan(files: Seq<ScannedFile>, stored: Seq<TrackForDB>) -> Seq<
    String,
> {
    spec_replace_plan_rec(files, stored, stored)
}

/// Decide whether a planned insertion supersedes the record `t`.
pub fn is_superseded(t: &TrackForDB, files: &Vec<ScannedFile>, stored: &Vec<TrackForDB>) -> (r:
    bool)
    ensures
        r == spec_superseded(*t, files@, stored@),
{
    let mut i: usize = 0;
    while i < files.len()
        invariant
            0 <= i <= files@.len(),
            forall|j: int|
                0 <= j < i ==> !((#[trigger] files@[j]).name@ == t.name@ && spec_needs_insert(
                    files@[j],
                    stored@,
                )),
        decreases files@.len() - i,
    {
        let f = &files[i];
        if str_eq(f.name.as_str(), t.name.as_str()) {
            if needs_insert(f, stored) {
                return true;
            }
        }
        i += 1;
    }
    false
}

/// Plan the replacements of one sync pass: the path of every stored
/// record whose name a planned insertion carries, in store order.
pub fn plan_replacements(files: &Vec<ScannedFile>, stored: &Vec<TrackForDB>) -> (r: Vec<String>)
    ensures
        r@ == spec_replace_plan(files@, stored@),
{
    let mut out: Vec<String> = Vec::new();
    let mut j: usize = 0;
    proof {
        assert(stored@.take(0) =~= Seq::<TrackForDB>::empty());
        assert(out@ =~= spec_replace_plan_rec(files@, stored@.take(0), stored@));
    }
    while j < stored.len()
        invariant
            0 <= j <= stored@.len(),
            out@ == spec_replace_plan_rec(files@, stored@.take(j as int), stored@),
        decreases stored@.len() - j,
    {
        let t = &stored[j];
        let sup = is_superseded(t, files, stored);
        if sup {
            out.push(t.file.clone());
        }
        proof {
            assert(stored@.take(j + 1).drop_last() =~= stored@.take(j as int));
            assert(stored@.take(j + 1).last() == stored@[j as int]);
            assert(out@ =~= spec_replace_plan_rec(files@, stored@.take(j + 1), stored@));
        }
        j += 1;
    }
    proof {
        assert(stored@.take(stored@.len() as int) =~= stored@);
    }
    out
}

/// A scan none of whose files carries `n` counts zero.
pub proof fn lemma_count_scan_name_zero(s: Seq<ScannedFile>, n: Seq<char>)
    requires
        forall|i: int| 0 <= i < s.len() ==> (#[trigger] s[i]).name@ != n,
    ensures
        spec_count_scan_name(s, n) == 0,
    decreases s.len(),
{
    if s.len() > 0 {
        assert forall|i: int| 0 <= i < s.drop_last().len() implies (#[trigger] s.drop_last()[i]).name@
            != n by {
            assert(s.drop_last()[i] == s[i]);
        }
        lemma_count_scan_name_zero(s.drop_last(), n);
        assert(s.last() == s[s.len() - 1]);
    }
}

/// A scan with one file of name `n` at `i` and no other counts one.
pub proof fn lemma_count_scan_name_unique(s: Seq<ScannedFile>, n: Seq<char>, i: int)
    requires
        0 <= i < s.len(),
        s[i].name@ == n,
        forall|j: int| 0 <= j < s.len() && j != i ==> (#[trigger] s[j]).name@ != n,
    ensures
        spec_count_scan_name(s, n) == 1,
    decreases s.len(),
{
    if i == s.len() - 1 {
        assert(s.last() == s[i]);
        assert forall|j: int| 0 <= j < s.drop_last().len() implies (#[trigger] s.drop_last()[j]).name@
            != n by {
            assert(s.drop_last()[j] == s[j]);
        }
        lemma_count_scan_name_zero(s.drop_last(), n);
    } else {
        assert(s.last() == s[s.len() - 1]);
        assert(s.last().name@ != n);
        assert(s.drop_last()[i] == s[i]);
        assert forall|j: int|
            0 <= j < s.drop_last().len() && j != i implies (#[trigger] s.drop_last()[j]).name@
            != n by {
            assert(s.drop_last()[j] == s[j]);
        }
        lemma_count_scan_name_unique(s.drop_last(), n, i);
    }
}

/// When a file of name `n` is planned for insertion, no record of
/// that name survives the pass: every stale namesake is replaced.
pub proof fn lemma_no_stale_survivor(
    files: Seq<ScannedFile>,
    part: Seq<TrackForDB>,
    stored: Seq<TrackForDB>,
    existing: Seq<String>,
    n: Seq<char>,
    i: int,
)
    requires
        0 <= i < files.len(),
        files[i].name@ == n,
        spec_needs_insert(files[i], stored),
    ensures
        spec_count_record_name(spec_surviving_rec(files, part, stored, existing), n) == 0,
    decreases part.len(),
{
    if part.len() > 0 {
        lemma_no_stale_survivor(files, part.drop_last(), stored, existing, n, i);
        let rest = spec_surviving_rec(files, part.drop_last(), stored, existing);
        let t = part.last();
        if spec_contains_str(existing, t.file@) && !spec_superseded(t, files, stored) {
            assert(t.name@ != n) by {
                if t.name@ == n {
                    assert(spec_superseded(t, files, stored));
                }
            }
            assert(rest.push(t).drop_last() =~= rest);
            assert(rest.push(t).last() == t);
        }
    }
}

/// The insertion plan carries a name exactly as often as the scan
/// did, provided every scanned file of that name needs insertion.
pub proof fn lemma_insert_plan_count_name(
    files: Seq<ScannedFile>,
    stored: Seq<TrackForDB>,
    n: Seq<char>,
)
    requires
        forall|i: int|
            0 <= i < files.len() && (#[trigger] files[i]).name@ == n ==> spec_needs_insert(
                files[i],
                stored,
            ),
    ensures
        spec_count_scan_name(spec_insert_plan(files, stored), n) == spec_count_scan_name(files, n),
    decreases files.len(),
{
    if files.len() > 0 {
        let rest = files.drop_last();
        assert forall|i: int|
            0 <= i < rest.len() && (#[trigger] rest[i]).name@ == n implies spec_needs_insert(
            rest[i],
            stored,
        ) by {
            assert(rest[i] == files[i]);
        }
        lemma_insert_plan_count_name(rest, stored, n);
        assert(files.last() == files[files.len() - 1]);
        let plan_rest = spec_insert_plan(rest, stored);
        if spec_needs_insert(files.last(), stored) {
            let plan = plan_rest.push(files.last());
            assert(plan.drop_last() =~= plan_rest);
            assert(plan.last() == files.last());
        }
    }
}

/// Records built from a plan, name for name, count names as the plan
/// does.
pub proof fn lemma_built_records_count_name(
    plan: Seq<ScannedFile>,
    inserted: Seq<TrackForDB>,
    n: Seq<char>,
)
    requires
        inserted.len() == plan.len(),
        forall|j: int| 0 <= j < inserted.len() ==> (#[trigger] inserted[j]).name@ == plan[j].name@,
    ensures
        spec_count_record_name(inserted, n) == spec_count_scan_name(plan, n),
    decreases plan.len(),
{
    if plan.len() > 0 {
        assert forall|j: int|
            0 <= j < inserted.drop_last().len() implies (#[trigger] inserted.drop_last()[j]).name@
            == plan.drop_last()[j].name@ by {
            assert(inserted.drop_last()[j] == inserted[j]);
            assert(plan.drop_last()[j] == plan[j]);
        }
        lemma_built_records_count_name(plan.drop_last(), inserted.drop_last(), n);
        assert(inserted.last() == inserted[inserted.len() - 1]);
        assert(plan.last() == plan[plan.len() - 1]);
        assert(inserted.last().name@ == plan.last().name@);
    }
}

/// Name counts add over concatenation.
pub proof fn lemma_count_record_name_concat(a: Seq<TrackForDB>, b: Seq<TrackForDB>, n: Seq<char>)
    ensures
        spec_count_record_name(a + b, n) == spec_count_record_name(a, n) + spec_count_record_name(
            b,
            n,
        ),
    decreases b.len(),
{
    if b.len() == 0 {
        assert(a + b =~= a);
    } else {
        lemma_count_record_name_concat(a, b.drop_last(), n);
        assert((a + b).drop_last() =~= a + b.drop_last());
        assert((a + b).last() == b.last());
    }
}

/// After one pass, a scanned file that was (re)inserted has exactly
/// one record of its name in the store: the fresh row, with every
/// stale namesake deleted, never a duplicate.
pub proof fn lemma_one_record_per_name(
    files: Seq<ScannedFile>,
    stored: Seq<TrackForDB>,
    existing: Seq<String>,
    inserted: Seq<TrackForDB>,
    i: int,
)
    requires
        0 <= i < files.len(),
        spec_needs_insert(files[i], stored),
        forall|j: int|
            0 <= j < files.len() && j != i ==> (#[trigger] files[j]).name@ != files[i].name@,
        inserted.len() == spec_insert_plan(files, stored).len(),
        forall|j: int|
            0 <= j < inserted.len() ==> (#[trigger] inserted[j]).name@ == spec_insert_plan(
                files,
                stored,
            )[j].name@,
    ensures
        spec_count_record_name(
            spec_surviving_records(files, stored, existing) + inserted,
            files[i].name@,
        ) == 1,
{
    let n = files[i].name@;
    let plan = spec_insert_plan(files, stored);
    let survivors = spec_surviving_records(files, stored, existing);
    lemma_no_stale_survivor(files, stored, stored, existing, n, i);
    assert forall|j: int|
        0 <= j < files.len() && (#[trigger] files[j]).name@ == n implies spec_needs_insert(
        files[j],
        stored,
    ) by {
        if j != i {
            assert(files[j].name@ != n);
        }
    }
    lemma_insert_plan_count_name(files, stored, n);
    lemma_count_scan_name_unique(files, n, i);
    lemma_built_records_count_name(plan, inserted, n);
    lemma_count_record_name_concat(survivors, inserted, n);
}

/// Sort records the way listings are served: by the transliteration
/// key of the track's file name, stably.
pub fn sort_tracks_by_pinyin(v: Vec<TrackForDB>) -> (r: Vec<TrackForDB>)
    ensures
        r@ == spec_stable_sort(v@),
        spec_sorted_by_key(r@),
{
    stable_sort_by_key(v)
}

/// Sort criteria values (artists, albums, genres, directories) the
/// way listings are served: by transliteration key, stably.
pub fn sort_names_by_pinyin(v: Vec<String>) -> (r: Vec<String>)
    ensures
        r@ == spec_stable_sort(v@),
        spec_sorted_by_key(r@),
{
    stable_sort_by_key(v)
}

} // verus!
