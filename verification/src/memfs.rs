//! The in-memory double of the capability interface.
//!
//! The store is a flat association of absolute file paths to text; no
//! directory is ever stored. Directory structure is derived on demand: a
//! path is a directory exactly when some stored path lies strictly below
//! it, and a listing collapses deeper descendants to one level.

use vstd::prelude::*;
use vstd::map::*;
use vstd::utf8::{valid_utf8, decode_utf8};
use crate::fs::{Fs, FsError, OpenOptions};
use crate::path::{FsPath, is_strict_prefix};

verus! {

/// One stored file: an absolute path and its text.
#[derive(Debug)]
pub struct FileRecord {
    pub path: FsPath,
    pub content: String,
}

/// The in-memory test double: a flat store of file records.
/// Only absolute file paths are held, never directories.
#[derive(Debug)]
pub struct TestFs {
    pub entries: Vec<FileRecord>,
}

/// A handle produced by `open`: the path it names and the options it was
/// opened with. It carries no other state.
#[derive(Debug)]
pub struct TestFile {
    pub path: FsPath,
    pub options: OpenOptions,
}

/// A directory-listing entry of the double: a stored file at its full path,
/// or a derived directory truncated to one level below the listed path.
#[derive(Debug, PartialEq, Eq, Hash)]
pub enum TestDirEnt {
    File(FsPath),
    Dir(FsPath),
}

/// The mathematical value of a listing entry.
pub enum EntView {
    File(Seq<Seq<char>>),
    Dir(Seq<Seq<char>>),
}

impl View for TestDirEnt {
    type V = EntView;

    open spec fn view(&self) -> EntView {
        match self {
            TestDirEnt::File(p) => EntView::File(p@),
            TestDirEnt::Dir(p) => EntView::Dir(p@),
        }
    }
}

impl View for TestFs {
    type V = Map<Seq<Seq<char>>, Seq<char>>;

    /// The store as a mapping from path to content.
    open spec fn view(&self) -> Map<Seq<Seq<char>>, Seq<char>> {
        Map::new(
            |k: Seq<Seq<char>>|
                exists|i: int| 0 <= i < self.entries@.len() && self.entries@[i].path@ == k,
            |k: Seq<Seq<char>>|
                {
                    let i = choose|i: int|
                        0 <= i < self.entries@.len() && self.entries@[i].path@ == k;
                    self.entries@[i].content@
                },
        )
    }
}

/// The listing entry a stored path `k` contributes one level below `p`:
/// a file when exactly one component remains, a directory truncated to one
/// component past `p` when more do.
pub open spec fn dir_entry_of(p: Seq<Seq<char>>, k: Seq<Seq<char>>) -> EntView {
    if k.len() == p.len() + 1 {
        EntView::File(k)
    } else {
        EntView::Dir(k.take(p.len() as int + 1))
    }
}

/// Every entry a listing of `p` over the store `m` must report: one for each
/// stored path strictly below `p`, collapsed to one level.
pub open spec fn dir_entries(m: Map<Seq<Seq<char>>, Seq<char>>, p: Seq<Seq<char>>) -> Set<
    EntView,
> {
    Set::new(
        |e: EntView|
            exists|k: Seq<Seq<char>>|
                #![auto]
                m.contains_key(k) && is_strict_prefix(p, k) && e == dir_entry_of(p, k),
    )
}

/// Relies on `String::from_utf8`: it succeeds exactly on valid UTF-8 input,
/// and the returned string is that input decoded.
#[verifier::external_body]
fn bytes_to_text(b: &[u8]) -> (r: Option<String>)
    ensures
        r is Some <==> valid_utf8(b@),
        r matches Some(s) ==> s@ == decode_utf8(b@),
{
    String::from_utf8(b.to_vec()).ok()
}

/// Equality of two listing entries: same tag, same path.
fn ent_eq(a: &TestDirEnt, b: &TestDirEnt) -> (r: bool)
    ensures
        r == (a@ == b@),
{
    match (a, b) {
        (TestDirEnt::File(x), TestDirEnt::File(y)) => x.eq_path(y),
        (TestDirEnt::Dir(x), TestDirEnt::Dir(y)) => x.eq_path(y),
        _ => false,
    }
}

/// Whether the list already holds an entry equal to `e`.
fn contains_ent(v: &Vec<TestDirEnt>, e: &TestDirEnt) -> (r: bool)
    ensures
        r == exists|j: int| 0 <= j < v@.len() && (#[trigger] v@[j]@) == e@,
{
    let mut i: usize = 0;
    while i < v.len()
        invariant
            i <= v@.len(),
            forall|j: int| 0 <= j < i ==> (#[trigger] v@[j]@) != e@,
        decreases v@.len() - i,
    {
        if ent_eq(&v[i], e) {
            assert(0 <= i < v@.len() && v@[i as int]@ == e@);
            return true;
        }
        i += 1;
    }
    false
}

/// Every entry of the set occurs somewhere in the list.
pub open spec fn covers(v: Seq<TestDirEnt>, s: Set<EntView>) -> bool {
    forall|e: EntView|
        #[trigger] s.contains(e) ==> exists|a: int| 0 <= a < v.len() && (#[trigger] v[a]@) == e
}

/// No two entries of the list are equal.
pub open spec fn no_duplicate_ents(v: Seq<TestDirEnt>) -> bool {
    forall|a: int, b: int| #![auto] 0 <= a < b < v.len() ==> v[a]@ != v[b]@
}

/// Every entry of the list belongs to the set.
pub open spec fn ents_sound(v: Seq<TestDirEnt>, s: Set<EntView>) -> bool {
    forall|j: int| #![auto] 0 <= j < v.len() ==> s.contains(v[j]@)
}

/// The list holds each entry of the set exactly once and nothing else.
pub open spec fn lists_exactly(v: Seq<TestDirEnt>, s: Set<EntView>) -> bool {
    no_duplicate_ents(v) && ents_sound(v, s) && covers(v, s)
}

impl TestFs {
    /// Keys are unique: no two records share a path.
    pub open spec fn wf(&self) -> bool {
        forall|i: int, j: int|
            0 <= i < j < self.entries@.len() ==> self.entries@[i].path@ != self.entries@[j].path@
    }

    /// A record of the store is what the view maps its path to.
    proof fn lemma_lookup(&self, i: int)
        requires
            self.wf(),
            0 <= i < self.entries@.len(),
        ensures
            self@.contains_key(self.entries@[i].path@),
            self@[self.entries@[i].path@] == self.entries@[i].content@,
    {
        let k = self.entries@[i].path@;
        assert(0 <= i < self.entries@.len() && self.entries@[i].path@ == k);
        let j = choose|j: int| 0 <= j < self.entries@.len() && self.entries@[j].path@ == k;
        if i != j {
            if i < j {
                assert(self.entries@[i].path@ != self.entries@[j].path@);
            } else {
                assert(self.entries@[j].path@ != self.entries@[i].path@);
            }
        }
        assert(j == i);
    }

    /// Replacing the content of the record at `i` rewrites exactly that
    /// record's key in the view.
    proof fn lemma_update_view(pre: TestFs, post: TestFs, i: int, k: Seq<Seq<char>>, txt: Seq<char>)
        requires
            pre.wf(),
            0 <= i < pre.entries@.len(),
            pre.entries@[i].path@ == k,
            post.entries@.len() == pre.entries@.len(),
            forall|j: int| 0 <= j < pre.entries@.len() && j != i ==> post.entries@[j]
                == pre.entries@[j],
            post.entries@[i].path@ == k,
            post.entries@[i].content@ == txt,
        ensures
            post.wf(),
            post@ == pre@.insert(k, txt),
    {
        assert(forall|j: int| #![auto]
            0 <= j < post.entries@.len() ==> post.entries@[j].path@ == pre.entries@[j].path@);
        assert(post.wf());
        assert_maps_equal!(post@, pre@.insert(k, txt), kk => {
            if post@.contains_key(kk) {
                let j = choose|j: int|
                    0 <= j < post.entries@.len() && post.entries@[j].path@ == kk;
                assert(0 <= j < pre.entries@.len() && pre.entries@[j].path@ == kk);
                pre.lemma_lookup(j);
                post.lemma_lookup(j);
                if kk == k {
                    assert(j == i);
                    assert(post@[kk] == txt);
                } else {
                    assert(j != i);
                    assert(post@[kk] == pre@[kk]);
                }
            }
            if pre@.insert(k, txt).contains_key(kk) {
                if kk == k {
                    assert(0 <= i < post.entries@.len() && post.entries@[i].path@ == kk);
                    assert(post@.contains_key(kk));
                } else {
                    assert(pre@.contains_key(kk));
                    let j = choose|j: int|
                        0 <= j < pre.entries@.len() && pre.entries@[j].path@ == kk;
                    assert(0 <= j < post.entries@.len() && post.entries@[j].path@ == kk);
                    assert(post@.contains_key(kk));
                }
            }
        });
    }

    /// Appending a record with a fresh path adds exactly that key to the
    /// view.
    proof fn lemma_push_view(pre: TestFs, post: TestFs, k: Seq<Seq<char>>, txt: Seq<char>)
        requires
            pre.wf(),
            forall|j: int| 0 <= j < pre.entries@.len() ==> (#[trigger] pre.entries@[j].path@)
                != k,
            post.entries@.len() == pre.entries@.len() + 1,
            forall|j: int| 0 <= j < pre.entries@.len() ==> post.entries@[j]
                == pre.entries@[j],
            post.entries@[pre.entries@.len() as int].path@ == k,
            post.entries@[pre.entries@.len() as int].content@ == txt,
        ensures
            post.wf(),
            post@ == pre@.insert(k, txt),
    {
        let last = pre.entries@.len() as int;
        assert forall|a: int, b: int|
            0 <= a < b < post.entries@.len() implies post.entries@[a].path@ != post.entries@[
            b].path@ by {
            if b == last {
                assert(post.entries@[a].path@ == pre.entries@[a].path@);
            } else {
                assert(post.entries@[a].path@ == pre.entries@[a].path@);
                assert(post.entries@[b].path@ == pre.entries@[b].path@);
            }
        }
        assert_maps_equal!(post@, pre@.insert(k, txt), kk => {
            if post@.contains_key(kk) {
                let j = choose|j: int|
                    0 <= j < post.entries@.len() && post.entries@[j].path@ == kk;
                post.lemma_lookup(j);
                if j == last {
                    assert(kk == k);
                    assert(post@[kk] == txt);
                } else {
                    assert(0 <= j < pre.entries@.len() && pre.entries@[j].path@ == kk);
                    pre.lemma_lookup(j);
                    assert(kk != k);
                    assert(post@[kk] == pre@[kk]);
                }
            }
            if pre@.insert(k, txt).contains_key(kk) {
                if kk == k {
                    assert(0 <= last < post.entries@.len() && post.entries@[last].path@ == kk);
                    assert(post@.contains_key(kk));
                } else {
                    assert(pre@.contains_key(kk));
                    let j = choose|j: int|
                        0 <= j < pre.entries@.len() && pre.entries@[j].path@ == kk;
                    assert(0 <= j < post.entries@.len() && post.entries@[j].path@ == kk);
                    assert(post@.contains_key(kk));
                }
            }
        });
    }

    /// The index of the record for `path`, if one is stored.
    fn find_index(&self, path: &FsPath) -> (r: Option<usize>)
        ensures
            match r {
                Some(i) => i < self.entries@.len() && self.entries@[i as int].path@ == path@,
                None => forall|j: int|
                    0 <= j < self.entries@.len() ==> self.entries@[j].path@ != path@,
            },
    {
        let mut i: usize = 0;
        while i < self.entries.len()
            invariant
                i <= self.entries@.len(),
                forall|j: int| 0 <= j < i ==> self.entries@[j].path@ != path@,
            decreases self.entries@.len() - i,
        {
            if self.entries[i].path.eq_path(path) {
                return Some(i);
            }
            i += 1;
        }
        None
    }

    /// Whether `path` is a literal key of the store.
    pub fn _exists(&self, path: &FsPath) -> (r: Result<bool, FsError>)
        ensures
            r == Ok::<bool, FsError>(self@.contains_key(path@)),
    {
        match self.find_index(path) {
            Some(i) => {
                proof {
                    assert(0 <= i < self.entries@.len() && self.entries@[i as int].path@
                        == path@);
                }
                Ok(true)
            },
            None => Ok(false),
        }
    }

    /// List the children derived for `path` from the key set: every stored
    /// path strictly below it, collapsed to one level and deduplicated.
    /// Fails NotADirectory exactly when `path` is itself a stored file.
    pub fn _dir(&self, path: &FsPath) -> (r: Result<Vec<TestDirEnt>, FsError>)
        ensures
            r is Err <==> self@.contains_key(path@),
            r matches Err(e) ==> e == FsError::NotADirectory,
            r matches Ok(v) ==> lists_exactly(v@, dir_entries(self@, path@)),
    {
        match self.find_index(path) {
            Some(i) => {
                proof {
                    assert(0 <= i < self.entries@.len() && self.entries@[i as int].path@
                        == path@);
                    assert(self@.contains_key(path@));
                }
                Err(FsError::NotADirectory)
            },
            None => {
                proof {
                    assert(!self@.contains_key(path@));
                }
                let plen = path.len();
                let mut out: Vec<TestDirEnt> = Vec::new();
                let mut i: usize = 0;
                while i < self.entries.len()
                    invariant
                        i <= self.entries@.len(),
                        plen == path@.len(),
                        forall|a: int, b: int|
                            #![auto]
                            0 <= a < b < out@.len() ==> out@[a]@ != out@[b]@,
                        forall|j: int|
                            #![auto]
                            0 <= j < out@.len() ==> dir_entries(self@, path@).contains(
                                out@[j]@),
                        forall|j: int|
                            0 <= j < i && is_strict_prefix(
                                path@,
                                #[trigger] self.entries@[j].path@,
                            ) ==> exists|a: int|
                                0 <= a < out@.len() && (#[trigger] out@[a]@) == dir_entry_of(
                                    path@,
                                    self.entries@[j].path@,
                                ),
                    decreases self.entries@.len() - i,
                {
                    let ghost old_out = out@;
                    let k = &self.entries[i].path;
                    if k.has_strict_prefix(path) {
                        let klen = k.len();
                        assert(plen < klen);
                        let ent: TestDirEnt = if klen == plen + 1 {
                            TestDirEnt::File(k.dup())
                        } else {
                            TestDirEnt::Dir(k.take_prefix(plen + 1))
                        };
                        proof {
                            assert(ent@ == dir_entry_of(path@, self.entries@[i as int].path@));
                            assert(0 <= i < self.entries@.len() && self.entries@[
                                i as int].path@ == k@);
                            assert(self@.contains_key(k@));
                            assert(dir_entries(self@, path@).contains(ent@));
                        }
                        if !contains_ent(&out, &ent) {
                            out.push(ent);
                            proof {
                                let last = out@.len() - 1;
                                assert(forall|j: int| 0 <= j < last ==> out@[j] == old_out[j]);
                                assert(0 <= last < out@.len() && (out@[last]@) == dir_entry_of(
                                    path@,
                                    self.entries@[i as int].path@,
                                ));
                            }
                        }
                    }
                    proof {
                        assert forall|j: int|
                            0 <= j < i + 1 && is_strict_prefix(
                                path@,
                                #[trigger] self.entries@[j].path@,
                            ) implies exists|a: int|
                            0 <= a < out@.len() && (#[trigger] out@[a]@) == dir_entry_of(
                                path@,
                                self.entries@[j].path@,
                            ) by {
                            if j < i {
                                let a = choose|a: int|
                                    0 <= a < old_out.len() && (#[trigger] old_out[a]@)
                                        == dir_entry_of(path@, self.entries@[j].path@);
                                assert(0 <= a < out@.len() && out@[a]@ == dir_entry_of(
                                    path@,
                                    self.entries@[j].path@,
                                ));
                            }
                        }
                    }
                    i += 1;
                }
                proof {
                    assert forall|e: EntView|
                        #[trigger] dir_entries(self@, path@).contains(e) implies exists|a: int|
                        0 <= a < out@.len() && (#[trigger] out@[a]@) == e by {
                        let k = choose|k: Seq<Seq<char>>|
                            #![auto]
                            self@.contains_key(k) && is_strict_prefix(path@, k) && e
                                == dir_entry_of(path@, k);
                        let j = choose|j: int|
                            0 <= j < self.entries@.len() && self.entries@[j].path@ == k;
                        assert(is_strict_prefix(path@, self.entries@[j].path@));
                        let a = choose|a: int|
                            0 <= a < out@.len() && (#[trigger] out@[a]@) == dir_entry_of(
                                path@,
                                self.entries@[j].path@,
                            );
                        assert(0 <= a < out@.len() && out@[a]@ == e);
                    }
                    assert(covers(out@, dir_entries(self@, path@)));
                    assert(no_duplicate_ents(out@));
                    assert(ents_sound(out@, dir_entries(self@, path@)));
                }
                Ok(out)
            },
        }
    }

    /// Whether the double classifies `path` as a directory, mirroring the
    /// existence-then-listing check order. A stored key is always a file and
    /// a derived directory is never a stored key, so the answer is false on
    /// every input; a listing failure other than NotADirectory would be
    /// propagated, and none exists here.
    pub fn _is_dir(&self, path: &FsPath) -> (r: Result<bool, FsError>)
        ensures
            r == Ok::<bool, FsError>(false),
    {
        let ex = match self._exists(path) {
            Ok(b) => b,
            Err(e) => {
                return Err(e);
            },
        };
        if !ex {
            return Ok(false);
        }
        match self._dir(path) {
            Err(FsError::NotADirectory) => Ok(false),
            Err(e) => Err(e),
            Ok(_) => Ok(true),
        }
    }

    /// Seed a store: each listed path becomes a file with placeholder
    /// content; a repeated path is stored once.
    pub fn new(l: Vec<FsPath>) -> (fs: TestFs)
        ensures
            fs.wf(),
            forall|k: Seq<Seq<char>>|
                #[trigger] fs@.contains_key(k) <==> exists|i: int|
                    0 <= i < l@.len() && (#[trigger] l@[i]@) == k,
            forall|k: Seq<Seq<char>>| #![auto] fs@.contains_key(k) ==> fs@[k] == "no content"@,
    {
        let mut fs = TestFs { entries: Vec::new() };
        let mut i: usize = 0;
        while i < l.len()
            invariant
                fs.wf(),
                i <= l@.len(),
                forall|j: int|
                    0 <= j < fs.entries@.len() ==> exists|a: int|
                        0 <= a < i && (#[trigger] l@[a]@) == #[trigger] fs.entries@[j].path@,
                forall|a: int|
                    0 <= a < i ==> exists|j: int|
                        (#[trigger] fs.entries@[j].path@) == #[trigger] l@[a]@ && 0 <= j
                            < fs.entries@.len(),
                forall|j: int| #![auto]
                    0 <= j < fs.entries@.len() ==> fs.entries@[j].content@ == "no content"@,
            decreases l@.len() - i,
        {
            match fs.find_index(&l[i]) {
                Some(j) => {
                    proof {
                        assert((fs.entries@[j as int].path@) == l@[i as int]@ && 0 <= (j as int)
                            && (j as int) < fs.entries@.len());
                    }
                },
                None => {
                    let ghost pre = fs.entries@;
                    fs.entries.push(
                        FileRecord { path: l[i].dup(), content: "no content".to_owned() },
                    );
                    proof {
                        let last = fs.entries@.len() - 1;
                        assert(forall|j: int| 0 <= j < last ==> fs.entries@[j] == pre[j]);
                        assert((fs.entries@[last].path@) == l@[i as int]@ && 0 <= last
                            < fs.entries@.len());
                        assert forall|j: int|
                            0 <= j < fs.entries@.len() implies exists|a: int|
                            0 <= a < i + 1 && (#[trigger] l@[a]@) == #[trigger] fs.entries@[
                            j].path@ by {
                            if j < last {
                                let a = choose|a: int|
                                    0 <= a < i && (#[trigger] l@[a]@) == pre[j].path@;
                                assert(0 <= a < i + 1 && l@[a]@ == fs.entries@[j].path@);
                            } else {
                                assert(0 <= i < i + 1 && l@[i as int]@ == fs.entries@[
                                    j].path@);
                            }
                        }
                    }
                },
            }
            i += 1;
        }
        proof {
            assert forall|k: Seq<Seq<char>>|
                #[trigger] fs@.contains_key(k) <==> exists|a: int|
                    0 <= a < l@.len() && (#[trigger] l@[a]@) == k by {
                if fs@.contains_key(k) {
                    let j = choose|j: int|
                        0 <= j < fs.entries@.len() && fs.entries@[j].path@ == k;
                    let a = choose|a: int| 0 <= a < i && l@[a]@ == fs.entries@[j].path@;
                    assert(0 <= a < l@.len() && l@[a]@ == k);
                }
                if exists|a: int| 0 <= a < l@.len() && (#[trigger] l@[a]@) == k {
                    let a = choose|a: int| 0 <= a < l@.len() && l@[a]@ == k;
                    let j = choose|j: int|
                        (fs.entries@[j].path@) == l@[a]@ && 0 <= j < fs.entries@.len();
                    assert(fs@.contains_key(k));
                }
            }
            assert forall|k: Seq<Seq<char>>| #![auto] fs@.contains_key(k) implies fs@[k]
                == "no content"@ by {
                let j = choose|j: int| 0 <= j < fs.entries@.len() && fs.entries@[j].path@ == k;
                fs.lemma_lookup(j);
            }
        }
        fs
    }
}

impl Fs for TestFs {
    type File = TestFile;

    type DirEnt = TestDirEnt;

    open spec fn inv(&self) -> bool {
        self.wf()
    }

    fn file_exists(&self, path: &FsPath) -> (r: Result<bool, FsError>)
        ensures
            r == Ok::<bool, FsError>(self@.contains_key(path@)),
    {
        self._exists(path)
    }

    /// Succeeds exactly when the path is stored or the create flag is set;
    /// the handle then carries the path and options unchanged. Otherwise
    /// fails NotFound.
    fn open(&self, options: OpenOptions, path: &FsPath) -> (r: Result<TestFile, FsError>)
        ensures
            r matches Ok(f) ==> (self@.contains_key(path@) || options.create) && f.path@
                == path@ && f.options == options,
            r matches Err(e) ==> e == FsError::NotFound && !self@.contains_key(path@)
                && !options.create,
    {
        let ex = match self._exists(path) {
            Ok(b) => b,
            Err(e) => {
                return Err(e);
            },
        };
        if ex || options.create {
            return Ok(TestFile { path: path.dup(), options });
        }
        Err(FsError::NotFound)
    }

    /// Fails PermissionDenied whenever the handle lacks the read flag,
    /// whether or not the path is stored; then NotFound when nothing is
    /// stored at the path; otherwise returns the stored text. The
    /// directory check runs first, and no handle path is ever classified a
    /// directory here, so IsADirectory does not arise in the double.
    fn read_to_string(&self, f: &TestFile) -> (r: Result<String, FsError>)
        ensures
            !f.options.read ==> r == Err::<String, FsError>(FsError::PermissionDenied),
            r matches Ok(s) ==> f.options.read && self@.contains_key(f.path@) && s@
                == self@[f.path@],
            r matches Err(e) ==> (e == FsError::PermissionDenied && !f.options.read) || (e
                == FsError::NotFound && f.options.read && !self@.contains_key(f.path@)),
    {
        let isdir = match self._is_dir(&f.path) {
            Ok(b) => b,
            Err(e) => {
                return Err(e);
            },
        };
        if isdir {
            return Err(FsError::IsADirectory);
        }
        if !f.options.read {
            return Err(FsError::PermissionDenied);
        }
        match self.find_index(&f.path) {
            None => Err(FsError::NotFound),
            Some(i) => {
                proof {
                    self.lemma_lookup(i as int);
                }
                Ok(self.entries[i].content.clone())
            },
        }
    }

    /// Fails PermissionDenied without the write flag; then
    /// ContentDecodeError when the bytes are not valid text; then, for a
    /// stored path or a handle with the create flag, stores the decoded
    /// text under the handle's path and succeeds; otherwise fails
    /// NotFound. On failure the store is untouched.
    fn write_to(&mut self, f: &TestFile, content: &[u8]) -> (r: Result<(), FsError>)
        ensures
            !f.options.write ==> r == Err::<(), FsError>(FsError::PermissionDenied) && final(self)@ == old(self)@,
            f.options.write && !valid_utf8(content@) ==> r == Err::<(), FsError>(
                FsError::ContentDecodeError,
            ) && final(self)@ == old(self)@,
            f.options.write && valid_utf8(content@) && (old(self)@.contains_key(f.path@)
                || f.options.create) ==> r == Ok::<(), FsError>(()) && final(self)@ == old(self)@.insert(f.path@, decode_utf8(content@)),
            f.options.write && valid_utf8(content@) && !old(self)@.contains_key(f.path@)
                && !f.options.create ==> r == Err::<(), FsError>(FsError::NotFound) && final(self)@ == old(self)@,
    {
        if !f.options.write {
            return Err(FsError::PermissionDenied);
        }
        let text = match bytes_to_text(content) {
            Some(t) => t,
            None => {
                return Err(FsError::ContentDecodeError);
            },
        };
        let isdir = match self._is_dir(&f.path) {
            Ok(b) => b,
            Err(e) => {
                return Err(e);
            },
        };
        if isdir {
            return Err(FsError::IsADirectory);
        }
        let ghost pre = *self;
        match self.find_index(&f.path) {
            None => {
                if f.options.create {
                    self.entries.push(FileRecord { path: f.path.dup(), content: text });
                    proof {
                        TestFs::lemma_push_view(pre, *self, f.path@, decode_utf8(content@));
                    }
                    Ok(())
                } else {
                    Err(FsError::NotFound)
                }
            },
            Some(i) => {
                self.entries[i] = FileRecord { path: f.path.dup(), content: text };
                proof {
                    TestFs::lemma_update_view(
                        pre,
                        *self,
                        i as int,
                        f.path@,
                        decode_utf8(content@),
                    );
                }
                Ok(())
            },
        }
    }

    /// Fails NotADirectory exactly when the path is itself a stored file;
    /// otherwise lists each derived child once.
    fn dir(&self, path: &FsPath) -> (r: Result<Vec<TestDirEnt>, FsError>)
        ensures
            r is Err <==> self@.contains_key(path@),
            r matches Err(e) ==> e == FsError::NotADirectory,
            r matches Ok(v) ==> lists_exactly(v@, dir_entries(self@, path@)),
    {
        self._dir(path)
    }

    fn is_dir(dirent: &TestDirEnt) -> (r: bool)
        ensures
            r == (dirent@ is Dir),
    {
        matches!(dirent, TestDirEnt::Dir(_))
    }

    fn is_file(dirent: &TestDirEnt) -> (r: bool)
        ensures
            r == !(dirent@ is Dir),
    {
        !Self::is_dir(dirent)
    }
}

/// Law: a store seeded from a path list holds exactly the members of the
/// list, so existence is answered true for them and false for every other
/// path.
pub proof fn lemma_seeded_exists_exactly(fs: TestFs, l: Seq<FsPath>, p: FsPath)
    requires
        forall|k: Seq<Seq<char>>|
            #[trigger] fs@.contains_key(k) <==> exists|i: int|
                0 <= i < l.len() && (#[trigger] l[i]@) == k,
    ensures
        fs@.contains_key(p@) <==> exists|i: int| 0 <= i < l.len() && (#[trigger] l[i]@) == p@,
{
}

/// Law: after a successful write of valid text through a handle, the store
/// maps the handle's path to exactly the decoded text, so a read through any
/// read-enabled handle for that path returns it.
pub proof fn lemma_write_read_round_trip(
    pre: TestFs,
    post: TestFs,
    f: TestFile,
    content: Seq<u8>,
)
    requires
        f.options.write,
        valid_utf8(content),
        pre@.contains_key(f.path@) || f.options.create,
        post@ == pre@.insert(f.path@, decode_utf8(content)),
    ensures
        post@.contains_key(f.path@),
        post@[f.path@] == decode_utf8(content),
{
}

/// Law: repeated writes to one path overwrite unconditionally; the store
/// after two writes is the store after the last one alone.
pub proof fn lemma_last_write_wins(
    m: Map<Seq<Seq<char>>, Seq<char>>,
    k: Seq<Seq<char>>,
    t1: Seq<char>,
    t2: Seq<char>,
)
    ensures
        m.insert(k, t1).insert(k, t2) == m.insert(k, t2),
{
    assert(m.insert(k, t1).insert(k, t2) =~= m.insert(k, t2));
}

} // verus!
