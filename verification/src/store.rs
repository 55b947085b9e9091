//! The data directory and its operations.  A `Store` models the directory
//! that holds one JSON file per task list beside the settings file; the
//! caller mirrors it from and to disk and every rule that governs the files
//! is stated and proved here: what a read yields, how a merge-write changes
//! a list, how deletion renumbers, how ids are allocated, and how the
//! first-run latch behaves.

use vstd::prelude::*;

use crate::merge::{delete_and_renumber, merge_into, next_id, remove_id, renumber, spec_merge,
    spec_next_id};
use crate::parse::{parse_settings_doc, parse_tasks_doc, sp_settings_doc, sp_tasks_doc};
use crate::encode::{enc_settings_doc, enc_tasks_doc, encode_settings, encode_tasks};
use crate::roundtrip::{lemma_rt_settings_doc, lemma_rt_tasks_doc};
use crate::task::{TaskView, Tasks};
use crate::text::{chars_eq, list_file_name, settings_file_name, spec_list_file_name,
    spec_settings_file_name};

verus! {

/// How an operation on the directory fails: the file itself cannot be used,
/// or its contents are not a well-formed document.
#[derive(Clone, Copy, Debug, PartialEq, Eq, Structural)]
pub enum StoreError {
    IoError,
    ParseError,
}

/// The settings record: the first-run latch and the last window position.
#[derive(Clone, Copy, Debug, PartialEq, Eq, Structural)]
pub struct Settings {
    pub run: bool,
    pub x: i32,
    pub y: i32,
}

impl Default for Settings {
    /// The record seeded on first access.
    fn default() -> (r: Self)
        ensures
            r.run == false && r.x == 100 && r.y == 100,
    {
        Settings { run: false, x: 100, y: 100 }
    }
}

/// A window position, as the caller supplies it when rewriting settings.
#[derive(Clone, Copy, Debug, PartialEq, Eq, Structural)]
pub struct WindowPosition {
    pub x: i32,
    pub y: i32,
}

/// The mathematical value of one file: its name and its decoded text.
pub ghost struct FileView {
    pub name: Seq<char>,
    pub content: Seq<char>,
}

/// One file of the data directory.
struct StoreFile {
    name: Vec<char>,
    content: Vec<char>,
}

impl View for StoreFile {
    type V = FileView;

    closed spec fn view(&self) -> FileView {
        FileView { name: self.name@, content: self.content@ }
    }
}

/// The first position at or after `k` whose file carries the given name.
pub open spec fn find_file_from(fs: Seq<FileView>, name: Seq<char>, k: int) -> Option<int>
    decreases fs.len() - k,
{
    if 0 <= k < fs.len() {
        if fs[k].name == name {
            Some(k)
        } else {
            find_file_from(fs, name, k + 1)
        }
    } else {
        None
    }
}

/// The position of the file with the given name, if any.
pub open spec fn find_file(fs: Seq<FileView>, name: Seq<char>) -> Option<int> {
    find_file_from(fs, name, 0)
}

/// Whether a file with the given name exists.
pub open spec fn has_file(fs: Seq<FileView>, name: Seq<char>) -> bool {
    find_file(fs, name) is Some
}

/// The content of the file with the given name, if it exists.
pub open spec fn content_of(fs: Seq<FileView>, name: Seq<char>) -> Option<Seq<char>> {
    match find_file(fs, name) {
        Some(k) => Some(fs[k].content),
        None => None,
    }
}

/// Writing a file: an existing file's content is replaced in place, a new
/// file is appended in enumeration order.
pub open spec fn upsert(fs: Seq<FileView>, name: Seq<char>, content: Seq<char>) -> Seq<FileView> {
    match find_file(fs, name) {
        Some(k) => fs.update(k, FileView { name, content }),
        None => fs.push(FileView { name, content }),
    }
}

/// Removing a file, keeping the order of the rest.
pub open spec fn remove_file(fs: Seq<FileView>, name: Seq<char>) -> Seq<FileView> {
    match find_file(fs, name) {
        Some(k) => fs.remove(k),
        None => fs,
    }
}

/// Well-formedness of a directory: file names are unique.
pub open spec fn files_wf(fs: Seq<FileView>) -> bool {
    forall|i: int, j: int| 0 <= i < j < fs.len() ==> fs[i].name != fs[j].name
}

/// What a list file's text means: no text at all is the empty collection, a
/// zero-length file likewise; otherwise the document grammar decides, and a
/// refused text has no meaning.
pub open spec fn tasks_meaning(content: Seq<char>) -> Option<Seq<TaskView>> {
    if content.len() == 0 {
        Some(Seq::empty())
    } else {
        sp_tasks_doc(content)
    }
}

/// The collection a list holds on disk, with a missing, empty or
/// meaningless file read as the empty collection.
pub open spec fn disk_tasks(fs: Seq<FileView>, list_name: Seq<char>) -> Seq<TaskView> {
    match content_of(fs, spec_list_file_name(list_name)) {
        Some(c) => match tasks_meaning(c) {
            Some(ts) => ts,
            None => Seq::empty(),
        },
        None => Seq::empty(),
    }
}

/// The first-run latch as recorded on disk: false while the settings file
/// is missing or meaningless.
pub open spec fn settings_run(fs: Seq<FileView>) -> bool {
    match content_of(fs, spec_settings_file_name()) {
        Some(c) => match sp_settings_doc(c) {
            Some((run, x, y)) => run,
            None => false,
        },
        None => false,
    }
}

/// The stored window x position, with the default where the settings file
/// is missing or meaningless.
pub open spec fn settings_x(fs: Seq<FileView>) -> int {
    match content_of(fs, spec_settings_file_name()) {
        Some(c) => match sp_settings_doc(c) {
            Some((run, x, y)) => x,
            None => 100,
        },
        None => 100,
    }
}

/// The stored window y position, with the default where the settings file
/// is missing or meaningless.
pub open spec fn settings_y(fs: Seq<FileView>) -> int {
    match content_of(fs, spec_settings_file_name()) {
        Some(c) => match sp_settings_doc(c) {
            Some((run, x, y)) => y,
            None => 100,
        },
        None => 100,
    }
}

/// Whatever the settings grammar yields fits the stored integer width:
/// the reader refuses numbers outside it.
pub proof fn lemma_settings_doc_range(c: Seq<char>)
    ensures
        match sp_settings_doc(c) {
            Some((run, x, y)) => i32::MIN <= x <= i32::MAX && i32::MIN <= y <= i32::MAX,
            None => true,
        },
{
}

/// The stored window position always fits the stored integer width.
pub proof fn lemma_settings_doc_range_of(fs: Seq<FileView>)
    ensures
        i32::MIN <= settings_x(fs) <= i32::MAX,
        i32::MIN <= settings_y(fs) <= i32::MAX,
{
    match content_of(fs, spec_settings_file_name()) {
        Some(c) => {
            lemma_settings_doc_range(c);
        },
        None => {},
    }
}

/// What `find_file_from` finds is the first holder of the name.
pub proof fn lemma_find_props(fs: Seq<FileView>, name: Seq<char>, k0: int)
    requires
        0 <= k0,
    ensures
        match find_file_from(fs, name, k0) {
            Some(k) => k0 <= k < fs.len() && fs[k].name == name && forall|m: int|
                k0 <= m < k ==> fs[m].name != name,
            None => forall|m: int| k0 <= m < fs.len() ==> fs[m].name != name,
        },
    decreases fs.len() - k0,
{
    if k0 < fs.len() && fs[k0].name != name {
        lemma_find_props(fs, name, k0 + 1);
    }
}

/// Finding a name looks only at names.
pub proof fn lemma_find_same_names(fs1: Seq<FileView>, fs2: Seq<FileView>, name: Seq<char>, k0: int)
    requires
        0 <= k0,
        fs1.len() == fs2.len(),
        forall|m: int| 0 <= m < fs1.len() ==> fs1[m].name == fs2[m].name,
    ensures
        find_file_from(fs1, name, k0) == find_file_from(fs2, name, k0),
    decreases fs1.len() - k0,
{
    if k0 < fs1.len() && fs1[k0].name != name {
        lemma_find_same_names(fs1, fs2, name, k0 + 1);
    }
}

/// Finding a name in a directory with one file appended.
pub proof fn lemma_find_push(fs: Seq<FileView>, f: FileView, name: Seq<char>, k0: int)
    requires
        0 <= k0 <= fs.len(),
    ensures
        find_file_from(fs.push(f), name, k0) == (match find_file_from(fs, name, k0) {
            Some(k) => Some(k),
            None => if f.name == name {
                Some(fs.len() as int)
            } else {
                None
            },
        }),
    decreases fs.len() - k0,
{
    if k0 < fs.len() {
        assert(fs.push(f).len() == fs.len() + 1);
        assert(fs.push(f)[k0] == fs[k0]);
        if fs[k0].name == name {
            assert(find_file_from(fs, name, k0) == Some(k0));
            assert(find_file_from(fs.push(f), name, k0) == Some(k0));
        } else {
            lemma_find_push(fs, f, name, k0 + 1);
            assert(find_file_from(fs, name, k0) == find_file_from(fs, name, k0 + 1));
            assert(find_file_from(fs.push(f), name, k0) == find_file_from(
                fs.push(f),
                name,
                k0 + 1,
            ));
        }
    } else {
        assert(fs.push(f)[k0] == f);
        assert(find_file_from(fs, name, k0) is None);
        if f.name == name {
            assert(find_file_from(fs.push(f), name, k0) == Some(k0));
        } else {
            assert(find_file_from(fs.push(f), name, k0 + 1) is None);
            assert(find_file_from(fs.push(f), name, k0) is None);
        }
    }
}

/// After a write, the written file holds the written content and every
/// other file is untouched; a well-formed directory stays well-formed.
pub proof fn lemma_upsert(fs: Seq<FileView>, name: Seq<char>, content: Seq<char>)
    ensures
        content_of(upsert(fs, name, content), name) == Some(content),
        has_file(upsert(fs, name, content), name),
        forall|n2: Seq<char>|
            n2 != name ==> #[trigger] content_of(upsert(fs, name, content), n2) == content_of(
                fs,
                n2,
            ),
        files_wf(fs) ==> files_wf(upsert(fs, name, content)),
{
    lemma_find_props(fs, name, 0);
    let fs2 = upsert(fs, name, content);
    match find_file(fs, name) {
        Some(k) => {
            lemma_find_props(fs2, name, 0);
            assert forall|n2: Seq<char>| n2 != name implies #[trigger] content_of(fs2, n2)
                == content_of(fs, n2) by {
                lemma_find_same_names(fs, fs2, n2, 0);
                lemma_find_props(fs, n2, 0);
            }
            assert(find_file(fs2, name) == Some(k)) by {
                lemma_find_props(fs2, name, 0);
                if find_file(fs2, name) is None {
                    assert(fs2[k].name == name);
                    assert(false);
                }
                let k2 = find_file(fs2, name)->Some_0;
                if k2 < k {
                    assert(fs[k2].name != name);
                    assert(fs2[k2].name == fs[k2].name);
                    assert(false);
                }
                if k2 > k {
                    assert(fs2[k].name == name);
                    assert(false);
                }
            }
        },
        None => {
            assert forall|n2: Seq<char>| n2 != name implies #[trigger] content_of(fs2, n2)
                == content_of(fs, n2) by {
                lemma_find_push(fs, FileView { name, content }, n2, 0);
                lemma_find_props(fs, n2, 0);
            }
            lemma_find_push(fs, FileView { name, content }, name, 0);
            assert(fs2[fs.len() as int].content == content);
        },
    }
}

/// Writing the same name twice keeps only the second content.
pub proof fn lemma_upsert_twice(fs: Seq<FileView>, name: Seq<char>, a: Seq<char>, b: Seq<char>)
    ensures
        upsert(upsert(fs, name, a), name, b) == upsert(fs, name, b),
{
    lemma_find_props(fs, name, 0);
    let fs1 = upsert(fs, name, a);
    match find_file(fs, name) {
        Some(k) => {
            lemma_find_same_names(fs, fs1, name, 0);
            assert(upsert(fs1, name, b) =~= upsert(fs, name, b));
        },
        None => {
            lemma_find_push(fs, FileView { name, content: a }, name, 0);
            assert(find_file(fs1, name) == Some(fs.len() as int));
            assert(upsert(fs1, name, b) =~= upsert(fs, name, b));
        },
    }
}

/// The directory model: one entry per file, in enumeration order.
pub struct Store {
    files: Vec<StoreFile>,
}

impl View for Store {
    type V = Seq<FileView>;

    closed spec fn view(&self) -> Seq<FileView> {
        Seq::new(self.files@.len(), |i: int| self.files@[i]@)
    }
}

impl Store {
    /// Well-formedness: file names are unique.
    pub open spec fn wf(&self) -> bool {
        files_wf(self@)
    }

    /// An empty directory.
    pub fn new() -> (r: Store)
        ensures
            r@ == Seq::<FileView>::empty(),
            r.wf(),
    {
        let r = Store { files: Vec::new() };
        proof {
            assert(r@ =~= Seq::<FileView>::empty());
        }
        r
    }

    /// The number of files.
    pub fn file_count(&self) -> (r: usize)
        ensures
            r == self@.len(),
    {
        self.files.len()
    }

    /// The name of the file at a position.
    pub fn file_name_at(&self, i: usize) -> (r: &Vec<char>)
        requires
            i < self@.len(),
        ensures
            r@ == self@[i as int].name,
    {
        &self.files[i].name
    }

    /// The content of the file at a position.
    pub fn file_content_at(&self, i: usize) -> (r: &Vec<char>)
        requires
            i < self@.len(),
        ensures
            r@ == self@[i as int].content,
    {
        &self.files[i].content
    }

    /// The position of the file with the given name.
    fn find_index(&self, name: &Vec<char>) -> (r: Option<usize>)
        ensures
            match r {
                Some(k) => k < self@.len() && find_file(self@, name@) == Some(k as int),
                None => find_file(self@, name@) is None,
            },
    {
        let mut i: usize = 0;
        while i < self.files.len()
            invariant
                i <= self.files@.len(),
                self@.len() == self.files@.len(),
                find_file(self@, name@) == find_file_from(self@, name@, i as int),
            decreases self.files@.len() - i,
        {
            if chars_eq(&self.files[i].name, name) {
                return Some(i);
            }
            i += 1;
        }
        None
    }

    /// Whether a file with the given name exists.
    pub fn contains_file(&self, name: &Vec<char>) -> (r: bool)
        ensures
            r == has_file(self@, name@),
    {
        self.find_index(name).is_some()
    }

    /// Whether the list's file exists.
    pub fn contains_list(&self, list_name: &Vec<char>) -> (r: bool)
        ensures
            r == has_file(self@, spec_list_file_name(list_name@)),
    {
        let fname = list_file_name(list_name);
        self.contains_file(&fname)
    }

    /// Writes a file into the model as it stands on disk, replacing any
    /// file of the same name.
    pub fn load_file(&mut self, name: Vec<char>, content: Vec<char>)
        requires
            old(self).wf(),
        ensures
            final(self)@ == upsert(old(self)@, name@, content@),
            final(self).wf(),
    {
        proof {
            lemma_upsert(self@, name@, content@);
        }
        let ghost oldv = self@;
        match self.find_index(&name) {
            Some(k) => {
                self.files.set(k, StoreFile { name, content });
                proof {
                    assert(self@ =~= upsert(oldv, name@, content@));
                }
            },
            None => {
                self.files.push(StoreFile { name, content });
                proof {
                    assert(self@ =~= upsert(oldv, name@, content@));
                }
            },
        }
    }

    /// Reads a task list.  A missing file and a zero-length file are the
    /// empty collection; a non-empty text the grammar refuses is a parse
    /// error; otherwise the collection the document holds, in order.  The
    /// grammar accepts any whitespace but is a JSON subset: it requires
    /// the canonical field order the writer emits and decodes `\u00..`
    /// escapes only, so a hand-edited document outside that subset is
    /// refused.
    pub fn read(&self, list_name: &Vec<char>) -> (r: Result<Tasks, StoreError>)
        ensures
            match r {
                Ok(t) => t@ == disk_tasks(self@, list_name@) && (match content_of(
                    self@,
                    spec_list_file_name(list_name@),
                ) {
                    Some(c) => tasks_meaning(c) is Some,
                    None => true,
                }),
                Err(e) => e == StoreError::ParseError && (match content_of(
                    self@,
                    spec_list_file_name(list_name@),
                ) {
                    Some(c) => tasks_meaning(c) is None,
                    None => false,
                }),
            },
    {
        let fname = list_file_name(list_name);
        match self.find_index(&fname) {
            None => Ok(Tasks::empty()),
            Some(i) => {
                let content = &self.files[i].content;
                if content.len() == 0 {
                    Ok(Tasks::empty())
                } else {
                    match parse_tasks_doc(content) {
                        Some(t) => Ok(t),
                        None => Err(StoreError::ParseError),
                    }
                }
            },
        }
    }

    /// Reads a task list for a caller that treats an unreadable list as
    /// empty, as the id allocator does.
    fn read_or_empty(&self, list_name: &Vec<char>) -> (r: Tasks)
        ensures
            r@ == disk_tasks(self@, list_name@),
    {
        match self.read(list_name) {
            Ok(t) => t,
            Err(_) => Tasks::empty(),
        }
    }

    /// Merge-writes a task list: the incoming entries are reconciled with
    /// the collection on disk and the merged collection replaces the file,
    /// never dropping an on-disk entry the incoming collection omits.  A
    /// missing file is created; an unreadable one is treated as empty and
    /// overwritten.
    pub fn write(&mut self, list_name: &Vec<char>, incoming: &Tasks)
        requires
            old(self).wf(),
        ensures
            final(self).wf(),
            final(self)@ == upsert(
                old(self)@,
                spec_list_file_name(list_name@),
                enc_tasks_doc(spec_merge(disk_tasks(old(self)@, list_name@), incoming@)),
            ),
            disk_tasks(final(self)@, list_name@) == spec_merge(
                disk_tasks(old(self)@, list_name@),
                incoming@,
            ),
            forall|n2: Seq<char>|
                n2 != spec_list_file_name(list_name@) ==> #[trigger] content_of(final(self)@, n2)
                    == content_of(old(self)@, n2),
    {
        let mut cur = self.read_or_empty(list_name);
        merge_into(&mut cur, incoming);
        let content = encode_tasks(&cur);
        let fname = list_file_name(list_name);
        proof {
            assert forall|m: int| 0 <= m < cur@.len() implies (#[trigger] cur@[m]).id_in_range()
            by {
            }
            lemma_rt_tasks_doc(cur@);
            lemma_upsert(self@, fname@, content@);
            reveal_strlit("{\n  \"tasks\": [");
            assert(content@.len() >= 14);
        }
        self.load_file(fname, content);
    }

    /// Deletes the entry with the given id from a list and renumbers every
    /// remaining entry to its zero-based position, then persists.  The
    /// list's file must exist.
    pub fn delete_entry(&mut self, id: i32, list_name: &Vec<char>)
        requires
            old(self).wf(),
            has_file(old(self)@, spec_list_file_name(list_name@)),
            disk_tasks(old(self)@, list_name@).len() <= i32::MAX,
        ensures
            final(self).wf(),
            final(self)@ == upsert(
                old(self)@,
                spec_list_file_name(list_name@),
                enc_tasks_doc(renumber(remove_id(disk_tasks(old(self)@, list_name@), id as int))),
            ),
            disk_tasks(final(self)@, list_name@) == renumber(
                remove_id(disk_tasks(old(self)@, list_name@), id as int),
            ),
            forall|n2: Seq<char>|
                n2 != spec_list_file_name(list_name@) ==> #[trigger] content_of(final(self)@, n2)
                    == content_of(old(self)@, n2),
    {
        let mut cur = self.read_or_empty(list_name);
        delete_and_renumber(&mut cur, id);
        let content = encode_tasks(&cur);
        let fname = list_file_name(list_name);
        proof {
            assert forall|m: int| 0 <= m < cur@.len() implies (#[trigger] cur@[m]).id_in_range()
            by {
            }
            lemma_rt_tasks_doc(cur@);
            lemma_upsert(self@, fname@, content@);
            reveal_strlit("{\n  \"tasks\": [");
            assert(content@.len() >= 14);
        }
        self.load_file(fname, content);
    }

    /// Creates a list: a zero-length file, which reads back as the empty
    /// collection.  An existing file of the same name is truncated.
    pub fn create_list(&mut self, name: &Vec<char>)
        requires
            old(self).wf(),
        ensures
            final(self).wf(),
            final(self)@ == upsert(old(self)@, spec_list_file_name(name@), Seq::empty()),
            disk_tasks(final(self)@, name@) == Seq::<TaskView>::empty(),
            forall|n2: Seq<char>|
                n2 != spec_list_file_name(name@) ==> #[trigger] content_of(final(self)@, n2)
                    == content_of(old(self)@, n2),
    {
        let fname = list_file_name(name);
        proof {
            lemma_upsert(self@, fname@, Seq::<char>::empty());
        }
        self.load_file(fname, Vec::new());
    }

    /// Deletes a list's file; a missing file is an error and changes
    /// nothing.
    pub fn delete_list(&mut self, name: &Vec<char>) -> (r: Result<(), StoreError>)
        requires
            old(self).wf(),
        ensures
            final(self).wf(),
            match r {
                Ok(u) => has_file(old(self)@, spec_list_file_name(name@)) && final(self)@
                    == remove_file(old(self)@, spec_list_file_name(name@)),
                Err(e) => e == StoreError::IoError && !has_file(
                    old(self)@,
                    spec_list_file_name(name@),
                ) && final(self)@ == old(self)@,
            },
    {
        let fname = list_file_name(name);
        match self.find_index(&fname) {
            Some(k) => {
                let ghost oldv = self@;
                self.files.remove(k);
                proof {
                    assert(self@ =~= oldv.remove(k as int));
                    assert forall|i: int, j: int| 0 <= i < j < self@.len() implies self@[i].name
                        != self@[j].name by {
                        let i0 = if i < k { i } else { i + 1 };
                        let j0 = if j < k { j } else { j + 1 };
                        assert(self@[i] == oldv[i0] && self@[j] == oldv[j0]);
                    }
                }
                Ok(())
            },
            None => Err(StoreError::IoError),
        }
    }

    /// Reads the settings record.  A missing file is first seeded with the
    /// default record; a present file that the grammar refuses is a parse
    /// error.  As for task lists, the grammar is a JSON subset that
    /// requires the canonical field order the writer emits.
    pub fn read_settings(&mut self) -> (r: Result<Settings, StoreError>)
        requires
            old(self).wf(),
        ensures
            final(self).wf(),
            match content_of(old(self)@, spec_settings_file_name()) {
                None => final(self)@ == upsert(
                    old(self)@,
                    spec_settings_file_name(),
                    enc_settings_doc(false, 100, 100),
                ) && r == Ok::<Settings, StoreError>(Settings { run: false, x: 100, y: 100 }),
                Some(c) => final(self)@ == old(self)@ && (match sp_settings_doc(c) {
                    Some((run, x, y)) => match r {
                        Ok(s) => s.run == run && s.x == x && s.y == y,
                        Err(_) => false,
                    },
                    None => r == Err::<Settings, StoreError>(StoreError::ParseError),
                }),
            },
    {
        let sname = settings_file_name();
        match self.find_index(&sname) {
            None => {
                let content = encode_settings(false, 100, 100);
                proof {
                    lemma_upsert(self@, sname@, content@);
                }
                self.load_file(sname, content);
                Ok(Settings { run: false, x: 100, y: 100 })
            },
            Some(i) => {
                match parse_settings_doc(&self.files[i].content) {
                    Some((run, x, y)) => Ok(Settings { run, x, y }),
                    None => Err(StoreError::ParseError),
                }
            },
        }
    }

    /// Rewrites the settings record with the given latch state and window
    /// position, creating the file if it is missing.
    pub fn write_settings(&mut self, run: bool, position: WindowPosition)
        requires
            old(self).wf(),
        ensures
            final(self).wf(),
            final(self)@ == upsert(
                old(self)@,
                spec_settings_file_name(),
                enc_settings_doc(run, position.x as int, position.y as int),
            ),
            settings_run(final(self)@) == run,
            forall|n2: Seq<char>|
                n2 != spec_settings_file_name() ==> #[trigger] content_of(final(self)@, n2)
                    == content_of(old(self)@, n2),
    {
        let content = encode_settings(run, position.x, position.y);
        let sname = settings_file_name();
        proof {
            lemma_upsert(self@, sname@, content@);
            lemma_rt_settings_doc(run, position.x as int, position.y as int);
        }
        self.load_file(sname, content);
    }

    /// The id for the next task submitted to a list: zero on an empty (or
    /// missing, or unreadable) list, one past the last entry's id
    /// otherwise.  The returned id depends only on the list's entries,
    /// never on the latch.  As a side effect the first-run latch is
    /// flipped to true and persisted if it was not already set; the stored
    /// window position is kept as it was (the default where the settings
    /// file was missing or unreadable), and the list itself is not
    /// touched.
    pub fn allocate_id(&mut self, list_name: &Vec<char>) -> (r: i32)
        requires
            old(self).wf(),
            disk_tasks(old(self)@, list_name@).len() > 0 ==> disk_tasks(
                old(self)@,
                list_name@,
            ).last().id < i32::MAX,
        ensures
            final(self).wf(),
            r == spec_next_id(disk_tasks(old(self)@, list_name@)),
            settings_run(old(self)@) ==> final(self)@ == old(self)@,
            !settings_run(old(self)@) ==> final(self)@ == upsert(
                old(self)@,
                spec_settings_file_name(),
                enc_settings_doc(true, settings_x(old(self)@), settings_y(old(self)@)),
            ),
            settings_run(final(self)@),
            settings_x(final(self)@) == settings_x(old(self)@),
            settings_y(final(self)@) == settings_y(old(self)@),
            spec_list_file_name(list_name@) != spec_settings_file_name() ==> disk_tasks(
                final(self)@,
                list_name@,
            ) == disk_tasks(old(self)@, list_name@),
    {
        let tasks = self.read_or_empty(list_name);
        let id = next_id(&tasks);
        let current = match self.read_settings() {
            Ok(s) => s,
            Err(_) => Settings { run: false, x: 100, y: 100 },
        };
        proof {
            lemma_rt_settings_doc(false, 100, 100);
            lemma_settings_doc_range_of(old(self)@);
        }
        if !current.run {
            self.write_settings(true, WindowPosition { x: current.x, y: current.y });
            proof {
                lemma_upsert_twice(
                    old(self)@,
                    spec_settings_file_name(),
                    enc_settings_doc(false, 100, 100),
                    enc_settings_doc(true, 100, 100),
                );
            }
        }
        proof {
            let x0 = settings_x(old(self)@);
            let y0 = settings_y(old(self)@);
            lemma_rt_settings_doc(true, x0, y0);
            lemma_upsert(old(self)@, spec_settings_file_name(), enc_settings_doc(false, 100, 100));
            lemma_upsert(old(self)@, spec_settings_file_name(), enc_settings_doc(true, x0, y0));
        }
        id
    }
}

/// The list names the directory holds from position `k` on: every file
/// name except the settings store's, extension included, in enumeration
/// order.
pub open spec fn names_except_settings(fs: Seq<FileView>, k: int) -> Seq<Seq<char>>
    decreases fs.len() - k,
{
    if 0 <= k < fs.len() {
        (if fs[k].name != spec_settings_file_name() {
            seq![fs[k].name]
        } else {
            Seq::empty()
        }) + names_except_settings(fs, k + 1)
    } else {
        Seq::empty()
    }
}

/// No name the enumeration yields is the settings store's.
pub proof fn lemma_names_except_settings(fs: Seq<FileView>, k: int)
    ensures
        forall|m: int|
            0 <= m < names_except_settings(fs, k).len() ==> #[trigger] names_except_settings(
                fs,
                k,
            )[m] != spec_settings_file_name(),
    decreases fs.len() - k,
{
    if 0 <= k < fs.len() {
        lemma_names_except_settings(fs, k + 1);
        let head: Seq<Seq<char>> = if fs[k].name != spec_settings_file_name() {
            seq![fs[k].name]
        } else {
            Seq::empty()
        };
        let rest = names_except_settings(fs, k + 1);
        assert forall|m: int|
            0 <= m < names_except_settings(fs, k).len() implies #[trigger] names_except_settings(
            fs,
            k,
        )[m] != spec_settings_file_name() by {
            assert(names_except_settings(fs, k)[m] == (head + rest)[m]);
            if m >= head.len() {
                assert((head + rest)[m] == rest[m - head.len()]);
            }
        }
    }
}

impl Store {
    /// The names of the task-list files, the settings file excluded, in
    /// enumeration order with extensions included.
    pub fn enumerate(&self) -> (r: Vec<Vec<char>>)
        ensures
            Seq::new(r@.len(), |m: int| r@[m]@) == names_except_settings(self@, 0),
            forall|m: int| 0 <= m < r@.len() ==> (#[trigger] r@[m])@ != spec_settings_file_name(),
    {
        let sname = settings_file_name();
        let mut out: Vec<Vec<char>> = Vec::new();
        let mut k: usize = 0;
        while k < self.files.len()
            invariant
                k <= self.files@.len(),
                self@.len() == self.files@.len(),
                sname@ == spec_settings_file_name(),
                names_except_settings(self@, 0) == Seq::new(out@.len(), |m: int| out@[m]@)
                    + names_except_settings(self@, k as int),
            decreases self.files@.len() - k,
        {
            let ghost outv = Seq::new(out@.len(), |m: int| out@[m]@);
            if !chars_eq(&self.files[k].name, &sname) {
                let copy = crate::text::chars_copy(&self.files[k].name);
                out.push(copy);
                proof {
                    assert(Seq::new(out@.len(), |m: int| out@[m]@) =~= outv.push(
                        self@[k as int].name,
                    ));
                    assert(outv.push(self@[k as int].name) + names_except_settings(
                        self@,
                        k + 1 as int,
                    ) =~= outv + (seq![self@[k as int].name] + names_except_settings(
                        self@,
                        k + 1 as int,
                    )));
                }
            } else {
                proof {
                    assert(Seq::<Seq<char>>::empty() + names_except_settings(self@, k + 1 as int)
                        =~= names_except_settings(self@, k + 1 as int));
                }
            }
            k += 1;
        }
        proof {
            assert(names_except_settings(self@, self@.len() as int) =~= Seq::<Seq<char>>::empty());
            assert(names_except_settings(self@, 0) =~= Seq::new(out@.len(), |m: int| out@[m]@));
            lemma_names_except_settings(self@, 0);
            assert forall|m: int| 0 <= m < out@.len() implies (#[trigger] out@[m])@
                != spec_settings_file_name() by {
                assert(Seq::new(out@.len(), |q: int| out@[q]@)[m] == out@[m]@);
                assert(names_except_settings(self@, 0)[m] != spec_settings_file_name());
            }
        }
        out
    }
}

} // verus!
