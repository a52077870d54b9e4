//! A directory tree held in memory, read and written through the same
//! interface as a disk.
use vstd::prelude::*;

use vstd::utf8::encode_utf8;

use crate::entity::unique_keys;

verus! {

broadcast use vstd::std_specs::vec::group_vec_axioms;

/// One entry of a directory listing. Directories come before files, and
/// within each, names go in the order of their UTF-8 bytes.
#[derive(Debug, Clone, PartialEq, Eq, PartialOrd, Ord)]
pub enum DirectoryEntry {
    Directory(String),
    File(String),
}

pub enum DirectoryEntryM {
    Directory(Seq<char>),
    File(Seq<char>),
}

impl View for DirectoryEntry {
    type V = DirectoryEntryM;

    open spec fn view(&self) -> DirectoryEntryM {
        match self {
            DirectoryEntry::Directory(n) => DirectoryEntryM::Directory(n@),
            DirectoryEntry::File(n) => DirectoryEntryM::File(n@),
        }
    }
}

/// Why a directory operation failed.
#[derive(Debug, Clone, Copy, PartialEq, Eq, Structural)]
pub enum DirError {
    /// The path is empty.
    InvalidPath,
    /// A directory on the path does not exist.
    DirectoryNotFound,
    /// The file does not exist.
    FileNotFound,
    /// The directory to create exists already.
    DirectoryExists,
    /// The file to write exists already.
    FileExists,
}

// ---------------------------------------------------------------------------
// Order of names
// ---------------------------------------------------------------------------

/// Lexicographic order of byte strings.
pub open spec fn bytes_lt(a: Seq<u8>, b: Seq<u8>) -> bool
    decreases a.len(),
{
    if a.len() == 0 {
        b.len() > 0
    } else if b.len() == 0 {
        false
    } else if a[0] != b[0] {
        a[0] < b[0]
    } else {
        bytes_lt(a.drop_first(), b.drop_first())
    }
}

proof fn lemma_bytes_lt_asym(a: Seq<u8>, b: Seq<u8>)
    ensures
        !(bytes_lt(a, b) && bytes_lt(b, a)),
    decreases a.len(),
{
    if a.len() > 0 && b.len() > 0 && a[0] == b[0] {
        lemma_bytes_lt_asym(a.drop_first(), b.drop_first());
    }
}

proof fn lemma_bytes_lt_trans(a: Seq<u8>, b: Seq<u8>, c: Seq<u8>)
    requires
        bytes_lt(a, b),
        bytes_lt(b, c),
    ensures
        bytes_lt(a, c),
    decreases a.len(),
{
    if a.len() > 0 && b.len() > 0 && c.len() > 0 && a[0] == b[0] && b[0] == c[0] {
        lemma_bytes_lt_trans(a.drop_first(), b.drop_first(), c.drop_first());
    }
}

/// The order of directory entries.
pub open spec fn entry_lt(a: DirectoryEntryM, b: DirectoryEntryM) -> bool {
    match (a, b) {
        (DirectoryEntryM::Directory(x), DirectoryEntryM::Directory(y)) => bytes_lt(
            encode_utf8(x),
            encode_utf8(y),
        ),
        (DirectoryEntryM::Directory(_), DirectoryEntryM::File(_)) => true,
        (DirectoryEntryM::File(_), DirectoryEntryM::Directory(_)) => false,
        (DirectoryEntryM::File(x), DirectoryEntryM::File(y)) => bytes_lt(
            encode_utf8(x),
            encode_utf8(y),
        ),
    }
}

proof fn lemma_entry_lt_asym(a: DirectoryEntryM, b: DirectoryEntryM)
    ensures
        !(entry_lt(a, b) && entry_lt(b, a)),
{
    match (a, b) {
        (DirectoryEntryM::Directory(x), DirectoryEntryM::Directory(y)) => lemma_bytes_lt_asym(
            encode_utf8(x),
            encode_utf8(y),
        ),
        (DirectoryEntryM::File(x), DirectoryEntryM::File(y)) => lemma_bytes_lt_asym(
            encode_utf8(x),
            encode_utf8(y),
        ),
        _ => {},
    }
}

proof fn lemma_entry_lt_trans(a: DirectoryEntryM, b: DirectoryEntryM, c: DirectoryEntryM)
    requires
        entry_lt(a, b),
        entry_lt(b, c),
    ensures
        entry_lt(a, c),
{
    match (a, b, c) {
        (
            DirectoryEntryM::Directory(x),
            DirectoryEntryM::Directory(y),
            DirectoryEntryM::Directory(z),
        ) => lemma_bytes_lt_trans(encode_utf8(x), encode_utf8(y), encode_utf8(z)),
        (DirectoryEntryM::File(x), DirectoryEntryM::File(y), DirectoryEntryM::File(z)) => {
            lemma_bytes_lt_trans(encode_utf8(x), encode_utf8(y), encode_utf8(z))
        },
        _ => {},
    }
}

/// Compares two byte strings.
fn bytes_less(a: &[u8], b: &[u8]) -> (r: bool)
    ensures
        r == bytes_lt(a@, b@),
{
    let mut i: usize = 0;
    assert(a@.subrange(0, a@.len() as int) =~= a@);
    assert(b@.subrange(0, b@.len() as int) =~= b@);
    while i < a.len() && i < b.len()
        invariant
            i <= a.len(),
            i <= b.len(),
            bytes_lt(a@, b@) == bytes_lt(a@.subrange(i as int, a@.len() as int), b@.subrange(i as int, b@.len() as int)),
        decreases a.len() - i,
    {
        let ghost sa = a@.subrange(i as int, a@.len() as int);
        let ghost sb = b@.subrange(i as int, b@.len() as int);
        if a[i] != b[i] {
            assert(sa[0] == a@[i as int] && sb[0] == b@[i as int]);
            return a[i] < b[i];
        }
        assert(sa.drop_first() =~= a@.subrange(i + 1, a@.len() as int));
        assert(sb.drop_first() =~= b@.subrange(i + 1, b@.len() as int));
        i = i + 1;
    }
    a.len() - i < b.len() - i
}

/// Compares two directory entries.
pub fn entry_less(a: &DirectoryEntry, b: &DirectoryEntry) -> (r: bool)
    ensures
        r == entry_lt(a@, b@),
{
    match (a, b) {
        (DirectoryEntry::Directory(x), DirectoryEntry::Directory(y)) => bytes_less(
            x.as_str().as_bytes(),
            y.as_str().as_bytes(),
        ),
        (DirectoryEntry::Directory(_), DirectoryEntry::File(_)) => true,
        (DirectoryEntry::File(_), DirectoryEntry::Directory(_)) => false,
        (DirectoryEntry::File(x), DirectoryEntry::File(y)) => bytes_less(
            x.as_str().as_bytes(),
            y.as_str().as_bytes(),
        ),
    }
}

/// The values of a listing.
pub open spec fn entries_view(v: Vec<DirectoryEntry>) -> Seq<DirectoryEntryM> {
    Seq::new(v.len() as nat, |i: int| v[i]@)
}

/// Each entry comes no later than those after it.
pub open spec fn sorted_entries(s: Seq<DirectoryEntryM>) -> bool {
    forall|i: int, j: int| 0 <= i < j < s.len() ==> !entry_lt(#[trigger] s[j], #[trigger] s[i])
}

/// Sorts a listing by insertion.
pub fn sort_entries(v: Vec<DirectoryEntry>) -> (r: Vec<DirectoryEntry>)
    ensures
        r.len() == v.len(),
        sorted_entries(entries_view(r)),
        forall|x: DirectoryEntryM|
            #[trigger] entries_view(r).contains(x) <==> entries_view(v).contains(x),
{
    let ghost vv = entries_view(v);
    let mut r: Vec<DirectoryEntry> = Vec::new();
    let mut v = v;
    let ghost total = v.len();
    let mut taken: usize = 0;
    while v.len() > 0
        invariant
            r.len() + v.len() == total,
            total == vv.len(),
            taken == r.len(),
            entries_view(v) =~= vv.subrange(taken as int, total as int),
            sorted_entries(entries_view(r)),
            forall|x: DirectoryEntryM|
                #[trigger] entries_view(r).contains(x) <==> vv.subrange(0, taken as int).contains(x),
        decreases v.len(),
    {
        let ghost old_v = entries_view(v);
        assert(old_v[0] == vv[taken as int]);
        let x = v.remove(0);
        assert(entries_view(v) =~= old_v.drop_first());
        let ghost rv = entries_view(r);
        assert(forall|y: DirectoryEntryM| rv.contains(y) <==> vv.subrange(0, taken as int).contains(y));
        let mut pos: usize = 0;
        while pos < r.len() && !entry_less(&x, &r[pos])
            invariant
                pos <= r.len(),
                rv == entries_view(r),
                forall|k: int| 0 <= k < pos ==> !entry_lt(x@, rv[k]),
            decreases r.len() - pos,
        {
            pos = pos + 1;
        }
        let ghost xv = x@;
        r.insert(pos, x);
        proof {
            let nv = entries_view(r);
            assert(nv =~= rv.insert(pos as int, xv));
            assert forall|i: int, j: int| 0 <= i < j < nv.len() implies !entry_lt(
                #[trigger] nv[j],
                #[trigger] nv[i],
            ) by {
                if i < pos && j == pos {
                } else if i == pos && j > pos {
                    let y = rv[j - 1];
                    let p = rv[pos as int];
                    if entry_lt(y, xv) {
                        if j - 1 == pos {
                            lemma_entry_lt_asym(xv, p);
                        } else {
                            lemma_entry_lt_trans(y, xv, p);
                        }
                    }
                } else if i < pos && j > pos {
                    assert(nv[i] == rv[i] && nv[j] == rv[j - 1]);
                } else if i > pos {
                    assert(nv[i] == rv[i - 1] && nv[j] == rv[j - 1]);
                }
            }
            assert(vv.subrange(0, taken as int + 1) =~= vv.subrange(0, taken as int).push(xv));
            assert forall|y: DirectoryEntryM| #[trigger] nv.contains(y) <==> vv.subrange(0, taken as int + 1).contains(y) by {
                let q = vv.subrange(0, taken as int + 1);
                if nv.contains(y) {
                    let k = choose|k: int| 0 <= k < nv.len() && #[trigger] nv[k] == y;
                    if k == pos {
                        assert(q[taken as int] == y);
                    } else {
                        if k < pos {
                            assert(rv[k] == y);
                        } else {
                            assert(rv[k - 1] == y);
                        }
                        assert(rv.contains(y));
                        let j = choose|j: int| 0 <= j < taken && #[trigger] vv.subrange(0, taken as int)[j] == y;
                        assert(q[j] == y);
                    }
                }
                if vv.subrange(0, taken as int + 1).contains(y) {
                    if y == xv {
                        assert(nv[pos as int] == y);
                    } else {
                        let k = choose|k: int| 0 <= k < taken + 1 && #[trigger] vv.subrange(0, taken as int + 1)[k] == y;
                        assert(vv.subrange(0, taken as int).contains(y)) by {
                            assert(vv.subrange(0, taken as int)[k] == y);
                        }
                        assert(rv.contains(y));
                        let m = choose|m: int| 0 <= m < rv.len() && #[trigger] rv[m] == y;
                        if m < pos {
                            assert(nv[m] == y);
                        } else {
                            assert(nv[m + 1] == y);
                        }
                    }
                }
            }
        }
        taken = taken + 1;
    }
    assert(vv.subrange(0, taken as int) =~= vv);
    r
}

// ---------------------------------------------------------------------------
// The tree held in memory
// ---------------------------------------------------------------------------

/// A directory tree in memory: files by name with their content, and
/// subdirectories by name.
#[derive(Debug)]
pub struct EmulatedDir {
    pub files: Vec<(String, String)>,
    pub dirs: Vec<(String, EmulatedDir)>,
}

pub struct DirM {
    pub files: Seq<(Seq<char>, Seq<char>)>,
    pub dirs: Seq<(Seq<char>, DirM)>,
}

pub open spec fn empty_dir() -> DirM {
    DirM { files: Seq::empty(), dirs: Seq::empty() }
}

pub open spec fn dir_view(d: EmulatedDir) -> DirM
    decreases d,
{
    DirM {
        files: Seq::new(d.files.len() as nat, |i: int| (d.files[i].0@, d.files[i].1@)),
        dirs: Seq::new(
            d.dirs.len() as nat,
            |i: int|
                if 0 <= i < d.dirs.len() {
                    (d.dirs[i].0@, dir_view(d.dirs[i].1))
                } else {
                    (Seq::empty(), empty_dir())
                },
        ),
    }
}

impl View for EmulatedDir {
    type V = DirM;

    open spec fn view(&self) -> DirM {
        dir_view(*self)
    }
}

/// `i` is the first position of name `k` in `s`.
pub open spec fn first_with<V>(s: Seq<(Seq<char>, V)>, k: Seq<char>, i: int) -> bool {
    &&& 0 <= i < s.len()
    &&& s[i].0 == k
    &&& forall|j: int| 0 <= j < i ==> s[j].0 != k
}

/// What the first entry of name `k` holds.
pub open spec fn lookup<V>(s: Seq<(Seq<char>, V)>, k: Seq<char>) -> Option<V> {
    if exists|i: int| first_with(s, k, i) {
        Some(s[choose|i: int| first_with(s, k, i)].1)
    } else {
        None
    }
}

/// `s` with the first entry of name `k` replaced by `(k, v)`, or with
/// `(k, v)` appended when there is none.
pub open spec fn put<V>(s: Seq<(Seq<char>, V)>, k: Seq<char>, v: V) -> Seq<(Seq<char>, V)> {
    if exists|i: int| first_with(s, k, i) {
        s.update(choose|i: int| first_with(s, k, i), (k, v))
    } else {
        s.push((k, v))
    }
}

proof fn lemma_first_unique<V>(s: Seq<(Seq<char>, V)>, k: Seq<char>, i: int, j: int)
    requires
        first_with(s, k, i),
        first_with(s, k, j),
    ensures
        i == j,
{
}

/// The directory at the end of `path`, if every name on it is a directory.
pub open spec fn dir_at(d: DirM, path: Seq<Seq<char>>) -> Option<DirM>
    decreases path.len(),
{
    if path.len() == 0 {
        Some(d)
    } else {
        match dir_at(d, path.drop_last()) {
            Some(x) => lookup(x.dirs, path.last()),
            None => None,
        }
    }
}

/// The names of a path.
pub open spec fn path_view(path: &[&str]) -> Seq<Seq<char>> {
    Seq::new(path@.len(), |i: int| path@[i]@)
}

/// The listing of a directory, in any order.
pub open spec fn listed(d: DirM, x: DirectoryEntryM) -> bool {
    match x {
        DirectoryEntryM::Directory(n) => exists|i: int| 0 <= i < d.dirs.len() && #[trigger] d.dirs[i].0 == n,
        DirectoryEntryM::File(n) => exists|i: int| 0 <= i < d.files.len() && #[trigger] d.files[i].0 == n,
    }
}

/// A tree after storing a file under the directories `dirs`, which are
/// created as needed; a file of that name is replaced.
pub open spec fn store(d: DirM, dirs: Seq<Seq<char>>, file: Seq<char>, content: Seq<char>) -> DirM
    decreases dirs.len(),
{
    if dirs.len() == 0 {
        DirM { files: put(d.files, file, content), ..d }
    } else {
        let sub = match lookup(d.dirs, dirs[0]) {
            Some(x) => x,
            None => empty_dir(),
        };
        DirM { dirs: put(d.dirs, dirs[0], store(sub, dirs.drop_first(), file, content)), ..d }
    }
}

/// A tree after creating the directory at the end of `path`, the
/// directories before it created as needed, with the outcome.
pub open spec fn create(d: DirM, path: Seq<Seq<char>>) -> (DirM, Result<(), DirError>)
    decreases path.len(),
{
    if path.len() == 0 {
        (d, Err(DirError::InvalidPath))
    } else if path.len() == 1 {
        if lookup(d.dirs, path[0]) is Some {
            (d, Err(DirError::DirectoryExists))
        } else {
            (DirM { dirs: d.dirs.push((path[0], empty_dir())), ..d }, Ok(()))
        }
    } else {
        let sub = match lookup(d.dirs, path[0]) {
            Some(x) => x,
            None => empty_dir(),
        };
        let (sub2, r) = create(sub, path.drop_first());
        (DirM { dirs: put(d.dirs, path[0], sub2), ..d }, r)
    }
}

/// A tree after writing a new file at the end of `path`, the directories
/// before it created as needed, with the outcome.
pub open spec fn write(d: DirM, path: Seq<Seq<char>>, content: Seq<char>) -> (DirM, Result<(), DirError>)
    decreases path.len(),
{
    if path.len() == 0 {
        (d, Err(DirError::InvalidPath))
    } else if path.len() == 1 {
        if lookup(d.files, path[0]) is Some {
            (d, Err(DirError::FileExists))
        } else {
            (DirM { files: d.files.push((path[0], content)), ..d }, Ok(()))
        }
    } else {
        let sub = match lookup(d.dirs, path[0]) {
            Some(x) => x,
            None => empty_dir(),
        };
        let (sub2, r) = write(sub, path.drop_first(), content);
        (DirM { dirs: put(d.dirs, path[0], sub2), ..d }, r)
    }
}

/// Where the first subdirectory named `k` stands.
pub(crate) fn find_dir(dirs: &Vec<(String, EmulatedDir)>, k: &String) -> (r: Option<usize>)
    ensures
        match r {
            Some(i) => first_with(dir_view_of(*dirs), k@, i as int),
            None => forall|i: int| 0 <= i < dirs.len() ==> (#[trigger] dir_view_of(*dirs)[i]).0 != k@,
        },
{
    let ghost s = dir_view_of(*dirs);
    let mut i: usize = 0;
    while i < dirs.len()
        invariant
            i <= dirs.len(),
            s == dir_view_of(*dirs),
            forall|j: int| 0 <= j < i ==> s[j].0 != k@,
        decreases dirs.len() - i,
    {
        if dirs[i].0.eq(k) {
            return Some(i);
        }
        i = i + 1;
    }
    None
}

/// Where the first file named `k` stands.
pub(crate) fn find_file(files: &Vec<(String, String)>, k: &String) -> (r: Option<usize>)
    ensures
        match r {
            Some(i) => first_with(file_view_of(*files), k@, i as int),
            None => forall|i: int| 0 <= i < files.len() ==> (#[trigger] file_view_of(*files)[i]).0 != k@,
        },
{
    let ghost s = file_view_of(*files);
    let mut i: usize = 0;
    while i < files.len()
        invariant
            i <= files.len(),
            s == file_view_of(*files),
            forall|j: int| 0 <= j < i ==> s[j].0 != k@,
        decreases files.len() - i,
    {
        if files[i].0.eq(k) {
            return Some(i);
        }
        i = i + 1;
    }
    None
}

/// The values of a list of subdirectories.
pub open spec fn dir_view_of(dirs: Vec<(String, EmulatedDir)>) -> Seq<(Seq<char>, DirM)> {
    Seq::new(dirs.len() as nat, |i: int| (dirs[i].0@, dirs[i].1@))
}

/// The values of a list of files.
pub open spec fn file_view_of(files: Vec<(String, String)>) -> Seq<(Seq<char>, Seq<char>)> {
    Seq::new(files.len() as nat, |i: int| (files[i].0@, files[i].1@))
}

/// The lists of a tree's value, stated through `dir_view_of` and
/// `file_view_of`.
pub proof fn lemma_dir_view(d: EmulatedDir)
    ensures
        d@.dirs == dir_view_of(d.dirs),
        d@.files == file_view_of(d.files),
{
    assert(d@.dirs =~= dir_view_of(d.dirs));
    assert(d@.files =~= file_view_of(d.files));
}

/// The pieces of `s` between its '/' separators, in order; at least one.
pub open spec fn split_slash(s: Seq<char>) -> Seq<Seq<char>>
    decreases s.len(),
{
    if s.len() == 0 {
        seq![Seq::empty()]
    } else {
        let p = split_slash(s.drop_last());
        if s.last() == '/' {
            p.push(Seq::empty())
        } else {
            p.update(p.len() - 1, p.last().push(s.last()))
        }
    }
}

proof fn lemma_split_slash_nonempty(s: Seq<char>)
    ensures
        split_slash(s).len() >= 1,
    decreases s.len(),
{
    if s.len() > 0 {
        lemma_split_slash_nonempty(s.drop_last());
    }
}

/// The values of a list of strings.
pub open spec fn strings_view(v: Vec<String>) -> Seq<Seq<char>> {
    Seq::new(v.len() as nat, |i: int| v[i]@)
}

/// Relies on `str::split` with the separator '/': the pieces between the
/// separators, in order.
#[verifier::external_body]
fn split_on_slash(s: &str) -> (r: Vec<String>)
    ensures
        strings_view(r) == split_slash(s@),
{
    s.split('/').map(|p| p.to_string()).collect()
}

/// The values of the pairs given to `new_from_string`.
pub open spec fn pairs_view(content: &[(&str, &str)]) -> Seq<(Seq<char>, Seq<char>)> {
    Seq::new(content@.len(), |i: int| (content@[i].0@, content@[i].1@))
}

/// The tree after storing the first `k` files of `content`, each given by a
/// path whose last piece is the file's name.
pub open spec fn stored_all(content: Seq<(Seq<char>, Seq<char>)>, k: nat) -> DirM
    decreases k,
{
    if k == 0 || k > content.len() {
        empty_dir()
    } else {
        let parts = split_slash(content[k - 1].0);
        store(stored_all(content, (k - 1) as nat), parts.drop_last(), parts.last(), content[k - 1].1)
    }
}

impl EmulatedDir {
    /// An empty tree.
    pub fn new() -> (r: EmulatedDir)
        ensures
            r@ == empty_dir(),
            dir_wf(r@),
    {
        let r = EmulatedDir { files: Vec::new(), dirs: Vec::new() };
        assert(r@.files =~= Seq::empty());
        assert(r@.dirs =~= Seq::empty());
        r
    }

    /// A tree holding the given files, each given by its path, with '/'
    /// between the names of the directories that lead to it.
    pub fn new_from_string(content: &[(&str, &str)]) -> (r: EmulatedDir)
        ensures
            r@ == stored_all(pairs_view(content), content@.len() as nat),
            dir_wf(r@),
    {
        let mut ed = EmulatedDir::new();
        let ghost cv = pairs_view(content);
        let mut i: usize = 0;
        while i < content.len()
            invariant
                i <= content@.len(),
                cv == pairs_view(content),
                ed@ == stored_all(cv, i as nat),
                dir_wf(ed@),
            decreases content.len() - i,
        {
            let (path, text) = content[i];
            let (dirs, file) = Self::path_to_dir_file(path);
            proof {
                lemma_store_wf(ed@, strings_view(dirs), file@, text@);
                assert(strings_view(dirs).subrange(0, dirs.len() as int) =~= strings_view(dirs));
            }
            ed.store_file(&dirs, 0, &file, &text.to_owned());
            proof {
                assert(strings_view(dirs).subrange(0, dirs.len() as int) =~= strings_view(dirs));
            }
            i = i + 1;
        }
        ed
    }

    /// The directories and the file name of a '/'-separated path.
    pub fn path_to_dir_file(path: &str) -> (r: (Vec<String>, String))
        ensures
            strings_view(r.0) == split_slash(path@).drop_last(),
            r.1@ == split_slash(path@).last(),
    {
        let mut parts = split_on_slash(path);
        proof {
            lemma_split_slash_nonempty(path@);
        }
        let ghost pv = strings_view(parts);
        let file = parts.pop().unwrap();
        assert(strings_view(parts) =~= pv.drop_last());
        (parts, file)
    }

    /// Stores a file under the directories `dirs` from position `i` on,
    /// creating them as needed; a file of that name is replaced.
    pub fn store_file(&mut self, dirs: &Vec<String>, i: usize, file: &String, content: &String)
        requires
            i <= dirs.len(),
        ensures
            final(self)@ == store(
                old(self)@,
                strings_view(*dirs).subrange(i as int, dirs.len() as int),
                file@,
                content@,
            ),
            dir_wf(old(self)@) ==> dir_wf(final(self)@),
        decreases dirs.len() - i,
    {
        proof {
            if dir_wf(self@) {
                lemma_store_wf(self@, strings_view(*dirs).subrange(i as int, dirs.len() as int), file@, content@);
            }
        }
        proof {
            lemma_dir_view(*self);
        }
        let ghost old_v = self@;
        let ghost rest = strings_view(*dirs).subrange(i as int, dirs.len() as int);
        if i == dirs.len() {
            let ghost fv = file_view_of(self.files);
            match find_file(&self.files, file) {
                Some(j) => {
                    self.files.set(j, (file.clone(), content.clone()));
                    proof {
                        assert(file_view_of(self.files) =~= fv.update(j as int, (file@, content@)));
                    }
                },
                None => {
                    self.files.push((file.clone(), content.clone()));
                    proof {
                        assert(file_view_of(self.files) =~= fv.push((file@, content@)));
                    }
                },
            }
            proof {
                lemma_dir_view(*self);
                assert(self@.dirs == old_v.dirs);
            }
        } else {
            let ghost dv = dir_view_of(self.dirs);
            let name = dirs[i].clone();
            assert(rest[0] == name@);
            assert(rest.drop_first() =~= strings_view(*dirs).subrange(i + 1, dirs.len() as int));
            let j = match find_dir(&self.dirs, &name) {
                Some(j) => j,
                None => {
                    self.dirs.push((name.clone(), EmulatedDir::new()));
                    assert(dir_view_of(self.dirs) =~= dv.push((name@, empty_dir())));
                    assert(first_with(dir_view_of(self.dirs), name@, dv.len() as int));
                    self.dirs.len() - 1
                },
            };
            let ghost mid = dir_view_of(self.dirs);
            let (nm, mut sub) = self.dirs.remove(j);
            sub.store_file(dirs, i + 1, file, content);
            let ghost sv = sub@;
            self.dirs.insert(j, (nm, sub));
            proof {
                assert(dir_view_of(self.dirs) =~= mid.update(j as int, (name@, sv)));
                lemma_dir_view(*self);
                if exists|k: int| first_with(dv, name@, k) {
                    let k = choose|k: int| first_with(dv, name@, k);
                    lemma_first_unique(dv, name@, k, j as int);
                    assert(self@.dirs =~= put(dv, name@, sv));
                } else {
                    assert(self@.dirs =~= put(dv, name@, sv));
                }
            }
        }
    }
}

proof fn lemma_dir_at_none(d: DirM, pv: Seq<Seq<char>>, i: nat, n: nat)
    requires
        i <= n <= pv.len(),
        dir_at(d, pv.take(i as int)) is None,
    ensures
        dir_at(d, pv.take(n as int)) is None,
    decreases n - i,
{
    if i < n {
        lemma_dir_at_none(d, pv, i, (n - 1) as nat);
        assert(pv.take(n as int).drop_last() =~= pv.take(n - 1));
    }
}

impl EmulatedDir {
    /// The directory reached by the first `n` names of `path`.
    fn walk(&self, path: &[&str], n: usize) -> (r: Option<&EmulatedDir>)
        requires
            n <= path@.len(),
        ensures
            match r {
                Some(d) => dir_at(self@, path_view(path).take(n as int)) == Some(d@),
                None => dir_at(self@, path_view(path).take(n as int)) is None,
            },
    {
        let ghost pv = path_view(path);
        let mut cur: &EmulatedDir = self;
        let mut i: usize = 0;
        assert(pv.take(0) =~= Seq::<Seq<char>>::empty());
        while i < n
            invariant
                i <= n <= path@.len(),
                pv == path_view(path),
                dir_at(self@, pv.take(i as int)) == Some(cur@),
            decreases n - i,
        {
            let name = path[i].to_owned();
            assert(pv.take(i + 1).drop_last() =~= pv.take(i as int));
            proof {
                lemma_dir_view(*cur);
            }
            match find_dir(&cur.dirs, &name) {
                Some(j) => {
                    proof {
                        let s = dir_view_of(cur.dirs);
                        let k = choose|k: int| first_with(s, name@, k);
                        lemma_first_unique(s, name@, k, j as int);
                    }
                    cur = &cur.dirs[j].1;
                },
                None => {
                    proof {
                        lemma_dir_at_none(self@, pv, (i + 1) as nat, n as nat);
                    }
                    return None;
                },
            }
            i = i + 1;
        }
        Some(cur)
    }

    /// The content of the file at the end of `path`.
    pub fn read_file(&self, path: &[&str]) -> (r: Result<String, DirError>)
        requires
            path@.len() > 0,
        ensures
            match dir_at(self@, path_view(path).drop_last()) {
                None => r == Err::<String, DirError>(DirError::DirectoryNotFound),
                Some(d) => match lookup(d.files, path_view(path).last()) {
                    Some(c) => r matches Ok(s) && s@ == c,
                    None => r == Err::<String, DirError>(DirError::FileNotFound),
                },
            },
    {
        let n = path.len() - 1;
        assert(path_view(path).take(n as int) =~= path_view(path).drop_last());
        match self.walk(path, n) {
            None => Err(DirError::DirectoryNotFound),
            Some(d) => {
                let name = path[n].to_owned();
                proof {
                    lemma_dir_view(*d);
                }
                match find_file(&d.files, &name) {
                    Some(j) => {
                        proof {
                            let s = file_view_of(d.files);
                            let k = choose|k: int| first_with(s, name@, k);
                            lemma_first_unique(s, name@, k, j as int);
                        }
                        Ok(d.files[j].1.clone())
                    },
                    None => Err(DirError::FileNotFound),
                }
            },
        }
    }

    /// The entries of the directory at the end of `path`: its directories,
    /// then its files, each in the order of their names.
    pub fn read_directory(&self, path: &[&str]) -> (r: Result<Vec<DirectoryEntry>, DirError>)
        ensures
            match dir_at(self@, path_view(path)) {
                None => r == Err::<Vec<DirectoryEntry>, DirError>(DirError::DirectoryNotFound),
                Some(d) => r matches Ok(v) && v.len() == d.dirs.len() + d.files.len()
                    && sorted_entries(entries_view(v)) && forall|x: DirectoryEntryM|
                    #[trigger] entries_view(v).contains(x) <==> listed(d, x),
            },
    {
        assert(path_view(path).take(path@.len() as int) =~= path_view(path));
        match self.walk(path, path.len()) {
            None => Err(DirError::DirectoryNotFound),
            Some(d) => {
                proof {
                    lemma_dir_view(*d);
                }
                let ghost dv = d@;
                let mut entries: Vec<DirectoryEntry> = Vec::new();
                let mut i: usize = 0;
                while i < d.dirs.len()
                    invariant
                        i <= d.dirs.len(),
                        dv == d@,
                        dv.dirs == dir_view_of(d.dirs),
                        entries.len() == i,
                        forall|k: int| 0 <= k < i ==> #[trigger] entries_view(entries)[k] == DirectoryEntryM::Directory(dv.dirs[k].0),
                    decreases d.dirs.len() - i,
                {
                    let ghost prev = entries_view(entries);
                    entries.push(DirectoryEntry::Directory(d.dirs[i].0.clone()));
                    assert(entries_view(entries) =~= prev.push(DirectoryEntryM::Directory(dv.dirs[i as int].0)));
                    i = i + 1;
                }
                let mut i: usize = 0;
                while i < d.files.len()
                    invariant
                        i <= d.files.len(),
                        dv == d@,
                        dv.dirs == dir_view_of(d.dirs),
                        dv.files == file_view_of(d.files),
                        entries.len() == d.dirs.len() + i,
                        forall|k: int| 0 <= k < d.dirs.len() ==> #[trigger] entries_view(entries)[k] == DirectoryEntryM::Directory(dv.dirs[k].0),
                        forall|k: int| 0 <= k < i ==> #[trigger] entries_view(entries)[d.dirs.len() + k] == DirectoryEntryM::File(dv.files[k].0),
                    decreases d.files.len() - i,
                {
                    let ghost prev = entries_view(entries);
                    entries.push(DirectoryEntry::File(d.files[i].0.clone()));
                    assert(entries_view(entries) =~= prev.push(DirectoryEntryM::File(dv.files[i as int].0)));
                    i = i + 1;
                }
                proof {
                    let ev = entries_view(entries);
                    let nd = d.dirs.len() as int;
                    assert forall|x: DirectoryEntryM| #[trigger] ev.contains(x) <==> listed(dv, x) by {
                        if ev.contains(x) {
                            let k = choose|k: int| 0 <= k < ev.len() && #[trigger] ev[k] == x;
                            if k < nd {
                                assert(ev[k] == DirectoryEntryM::Directory(dv.dirs[k].0));
                            } else {
                                assert(ev[nd + (k - nd)] == DirectoryEntryM::File(dv.files[k - nd].0));
                            }
                        }
                        if listed(dv, x) {
                            match x {
                                DirectoryEntryM::Directory(n) => {
                                    let k = choose|k: int| 0 <= k < dv.dirs.len() && #[trigger] dv.dirs[k].0 == n;
                                    assert(ev[k] == x);
                                },
                                DirectoryEntryM::File(n) => {
                                    let k = choose|k: int| 0 <= k < dv.files.len() && #[trigger] dv.files[k].0 == n;
                                    assert(ev[nd + k] == x);
                                },
                            }
                        }
                    }
                }
                let sorted = sort_entries(entries);
                Ok(sorted)
            },
        }
    }

    /// Empties the tree.
    pub fn clean(&mut self)
        ensures
            final(self)@ == empty_dir(),
            dir_wf(final(self)@),
    {
        self.dirs.clear();
        self.files.clear();
        proof {
            lemma_dir_view(*self);
        }
        assert(self@.files =~= Seq::empty());
        assert(self@.dirs =~= Seq::empty());
    }

    /// Creates the directory at the end of `path`, and the directories
    /// before it as needed.
    pub fn create_directory(&mut self, path: &[&str]) -> (r: Result<(), DirError>)
        ensures
            (final(self)@, r) == create(old(self)@, path_view(path)),
            dir_wf(old(self)@) ==> dir_wf(final(self)@),
    {
        proof {
            if dir_wf(self@) {
                lemma_create_wf(self@, path_view(path));
            }
        }
        assert(path_view(path).subrange(0, path@.len() as int) =~= path_view(path));
        self.create_at(path, 0)
    }

    fn create_at(&mut self, path: &[&str], i: usize) -> (r: Result<(), DirError>)
        requires
            i <= path@.len(),
        ensures
            (final(self)@, r) == create(old(self)@, path_view(path).subrange(i as int, path@.len() as int)),
        decreases path@.len() - i,
    {
        proof {
            lemma_dir_view(*self);
        }
        let ghost rest = path_view(path).subrange(i as int, path@.len() as int);
        let ghost dv = dir_view_of(self.dirs);
        let ghost old_v = self@;
        if i == path.len() {
            return Err(DirError::InvalidPath);
        }
        let name = path[i].to_owned();
        assert(rest[0] == name@);
        if i + 1 == path.len() {
            match find_dir(&self.dirs, &name) {
                Some(j) => {
                    return Err(DirError::DirectoryExists);
                },
                None => {
                    self.dirs.push((name, EmulatedDir::new()));
                    proof {
                        assert(dir_view_of(self.dirs) =~= dv.push((rest[0], empty_dir())));
                        lemma_dir_view(*self);
                        assert(self@.files == old_v.files);
                    }
                    return Ok(());
                },
            }
        }
        assert(rest.drop_first() =~= path_view(path).subrange(i + 1, path@.len() as int));
        let j = match find_dir(&self.dirs, &name) {
            Some(j) => j,
            None => {
                self.dirs.push((name.clone(), EmulatedDir::new()));
                assert(dir_view_of(self.dirs) =~= dv.push((name@, empty_dir())));
                assert(first_with(dir_view_of(self.dirs), name@, dv.len() as int));
                self.dirs.len() - 1
            },
        };
        let ghost mid = dir_view_of(self.dirs);
        let (nm, mut sub) = self.dirs.remove(j);
        let r = sub.create_at(path, i + 1);
        let ghost sv = sub@;
        self.dirs.insert(j, (nm, sub));
        proof {
            assert(dir_view_of(self.dirs) =~= mid.update(j as int, (name@, sv)));
            lemma_dir_view(*self);
            if exists|k: int| first_with(dv, name@, k) {
                let k = choose|k: int| first_with(dv, name@, k);
                lemma_first_unique(dv, name@, k, j as int);
            }
            assert(self@.dirs =~= put(dv, name@, sv));
        }
        r
    }

    /// Writes a new file at the end of `path`, creating the directories
    /// before it as needed; an existing file is left as it is.
    pub fn write_file(&mut self, path: &[&str], content: &str) -> (r: Result<(), DirError>)
        ensures
            (final(self)@, r) == write(old(self)@, path_view(path), content@),
            dir_wf(old(self)@) ==> dir_wf(final(self)@),
    {
        proof {
            if dir_wf(self@) {
                lemma_write_wf(self@, path_view(path), content@);
            }
        }
        assert(path_view(path).subrange(0, path@.len() as int) =~= path_view(path));
        self.write_at(path, 0, &content.to_owned())
    }

    fn write_at(&mut self, path: &[&str], i: usize, content: &String) -> (r: Result<(), DirError>)
        requires
            i <= path@.len(),
        ensures
            (final(self)@, r) == write(old(self)@, path_view(path).subrange(i as int, path@.len() as int), content@),
        decreases path@.len() - i,
    {
        proof {
            lemma_dir_view(*self);
        }
        let ghost rest = path_view(path).subrange(i as int, path@.len() as int);
        let ghost dv = dir_view_of(self.dirs);
        let ghost fv = file_view_of(self.files);
        let ghost old_v = self@;
        if i == path.len() {
            return Err(DirError::InvalidPath);
        }
        let name = path[i].to_owned();
        assert(rest[0] == name@);
        if i + 1 == path.len() {
            match find_file(&self.files, &name) {
                Some(j) => {
                    return Err(DirError::FileExists);
                },
                None => {
                    self.files.push((name, content.clone()));
                    proof {
                        assert(file_view_of(self.files) =~= fv.push((rest[0], content@)));
                        lemma_dir_view(*self);
                        assert(self@.dirs == old_v.dirs);
                    }
                    return Ok(());
                },
            }
        }
        assert(rest.drop_first() =~= path_view(path).subrange(i + 1, path@.len() as int));
        let j = match find_dir(&self.dirs, &name) {
            Some(j) => j,
            None => {
                self.dirs.push((name.clone(), EmulatedDir::new()));
                assert(dir_view_of(self.dirs) =~= dv.push((name@, empty_dir())));
                assert(first_with(dir_view_of(self.dirs), name@, dv.len() as int));
                self.dirs.len() - 1
            },
        };
        let ghost mid = dir_view_of(self.dirs);
        let (nm, mut sub) = self.dirs.remove(j);
        let r = sub.write_at(path, i + 1, content);
        let ghost sv = sub@;
        self.dirs.insert(j, (nm, sub));
        proof {
            assert(dir_view_of(self.dirs) =~= mid.update(j as int, (name@, sv)));
            lemma_dir_view(*self);
            if exists|k: int| first_with(dv, name@, k) {
                let k = choose|k: int| first_with(dv, name@, k);
                lemma_first_unique(dv, name@, k, j as int);
            }
            assert(self@.dirs =~= put(dv, name@, sv));
        }
        r
    }
}

/// Reading a directory tree, on disk or in memory.
pub trait Reader {
    fn read_directory(&self, path: &[&str]) -> Result<Vec<DirectoryEntry>, DirError>;

    fn read_file(&self, path: &[&str]) -> Result<String, DirError>;
}

/// Writing a directory tree, on disk or in memory.
pub trait Writer {
    fn clean(&mut self) -> Result<(), DirError>;

    fn create_directory(&mut self, path: &[&str]) -> Result<(), DirError>;

    fn write_file(&mut self, path: &[&str], content: &str) -> Result<(), DirError>;
}

impl Reader for EmulatedDir {
    fn read_directory(&self, path: &[&str]) -> Result<Vec<DirectoryEntry>, DirError> {
        EmulatedDir::read_directory(self, path)
    }

    fn read_file(&self, path: &[&str]) -> Result<String, DirError> {
        if path.len() == 0 {
            Err(DirError::InvalidPath)
        } else {
            EmulatedDir::read_file(self, path)
        }
    }
}

impl Writer for EmulatedDir {
    fn clean(&mut self) -> Result<(), DirError> {
        EmulatedDir::clean(self);
        Ok(())
    }

    fn create_directory(&mut self, path: &[&str]) -> Result<(), DirError> {
        EmulatedDir::create_directory(self, path)
    }

    fn write_file(&mut self, path: &[&str], content: &str) -> Result<(), DirError> {
        EmulatedDir::write_file(self, path, content)
    }
}

// ---------------------------------------------------------------------------
// Each name at most once
// ---------------------------------------------------------------------------

/// Each directory of the tree holds each file name and each subdirectory
/// name at most once.
pub open spec fn dir_wf(d: DirM) -> bool
    decreases d,
{
    &&& unique_keys(d.files)
    &&& unique_keys(d.dirs)
    &&& forall|i: int| 0 <= i < d.dirs.len() ==> dir_wf(#[trigger] d.dirs[i].1)
}

proof fn lemma_first_exists<V>(s: Seq<(Seq<char>, V)>, k: Seq<char>, i: int)
    requires
        0 <= i < s.len(),
        s[i].0 == k,
    ensures
        exists|j: int| first_with(s, k, j),
    decreases i,
{
    if exists|j: int| 0 <= j < i && s[j].0 == k {
        let j = choose|j: int| 0 <= j < i && s[j].0 == k;
        lemma_first_exists(s, k, j);
    } else {
        assert(first_with(s, k, i));
    }
}

/// `put` keeps the names unique, and each entry is the new one or the one
/// that stood there.
proof fn lemma_put<V>(s: Seq<(Seq<char>, V)>, k: Seq<char>, v: V)
    requires
        unique_keys(s),
    ensures
        unique_keys(put(s, k, v)),
        forall|i: int|
            0 <= i < put(s, k, v).len() ==> #[trigger] put(s, k, v)[i] == (k, v) || (i < s.len()
                && put(s, k, v)[i] == s[i]),
{
    let t = put(s, k, v);
    if exists|i: int| first_with(s, k, i) {
        let c = choose|i: int| first_with(s, k, i);
        assert forall|i: int, j: int|
            0 <= i < t.len() && 0 <= j < t.len() && i != j implies #[trigger] t[i].0 != #[trigger] t[j].0 by {
            assert(t[i].0 == s[i].0 && t[j].0 == s[j].0);
        }
    } else {
        assert forall|i: int| 0 <= i < s.len() implies s[i].0 != k by {
            if s[i].0 == k {
                lemma_first_exists(s, k, i);
            }
        }
        assert forall|i: int, j: int|
            0 <= i < t.len() && 0 <= j < t.len() && i != j implies #[trigger] t[i].0 != #[trigger] t[j].0 by {
            if i < s.len() && j < s.len() {
                assert(t[i] == s[i] && t[j] == s[j]);
            } else if i < s.len() {
                assert(t[i] == s[i]);
            } else {
                assert(t[j] == s[j]);
            }
        }
    }
}

/// The subdirectories of a well-formed directory after `put` of a
/// well-formed one.
proof fn lemma_put_dir(d: DirM, k: Seq<char>, sub: DirM)
    requires
        dir_wf(d),
        dir_wf(sub),
    ensures
        dir_wf(DirM { dirs: put(d.dirs, k, sub), ..d }),
{
    lemma_put(d.dirs, k, sub);
    let t = put(d.dirs, k, sub);
    assert forall|i: int| 0 <= i < t.len() implies dir_wf(#[trigger] t[i].1) by {
        if t[i] != (k, sub) {
            assert(dir_wf(d.dirs[i].1));
        }
    }
}

/// What `lookup` finds in a well-formed directory is well formed.
proof fn lemma_lookup_dir(d: DirM, k: Seq<char>)
    requires
        dir_wf(d),
    ensures
        lookup(d.dirs, k) matches Some(x) ==> dir_wf(x),
{
    if exists|i: int| first_with(d.dirs, k, i) {
        let i = choose|i: int| first_with(d.dirs, k, i);
        assert(dir_wf(d.dirs[i].1));
    }
}

/// Storing a file keeps a tree well formed.
pub proof fn lemma_store_wf(d: DirM, dirs: Seq<Seq<char>>, file: Seq<char>, content: Seq<char>)
    requires
        dir_wf(d),
    ensures
        dir_wf(store(d, dirs, file, content)),
    decreases dirs.len(),
{
    if dirs.len() == 0 {
        lemma_put(d.files, file, content);
        let r = store(d, dirs, file, content);
        assert forall|i: int| 0 <= i < r.dirs.len() implies dir_wf(#[trigger] r.dirs[i].1) by {
            assert(dir_wf(d.dirs[i].1));
        }
    } else {
        lemma_lookup_dir(d, dirs[0]);
        let sub = match lookup(d.dirs, dirs[0]) {
            Some(x) => x,
            None => empty_dir(),
        };
        lemma_store_wf(sub, dirs.drop_first(), file, content);
        lemma_put_dir(d, dirs[0], store(sub, dirs.drop_first(), file, content));
    }
}

/// Creating a directory keeps a tree well formed.
pub proof fn lemma_create_wf(d: DirM, path: Seq<Seq<char>>)
    requires
        dir_wf(d),
    ensures
        dir_wf(create(d, path).0),
    decreases path.len(),
{
    if path.len() == 1 {
        if lookup(d.dirs, path[0]) is None {
            assert forall|i: int| 0 <= i < d.dirs.len() implies d.dirs[i].0 != path[0] by {
                if d.dirs[i].0 == path[0] {
                    lemma_first_exists(d.dirs, path[0], i);
                }
            }
            let r = create(d, path).0;
            assert(r.dirs == d.dirs.push((path[0], empty_dir())));
            assert forall|i: int, j: int|
                0 <= i < r.dirs.len() && 0 <= j < r.dirs.len() && i != j implies #[trigger] r.dirs[i].0
                != #[trigger] r.dirs[j].0 by {
                if i < d.dirs.len() && j < d.dirs.len() {
                    assert(r.dirs[i] == d.dirs[i] && r.dirs[j] == d.dirs[j]);
                } else if i < d.dirs.len() {
                    assert(r.dirs[i] == d.dirs[i]);
                } else {
                    assert(r.dirs[j] == d.dirs[j]);
                }
            }
            assert forall|i: int| 0 <= i < r.dirs.len() implies dir_wf(#[trigger] r.dirs[i].1) by {
                if i < d.dirs.len() {
                    assert(dir_wf(d.dirs[i].1));
                } else {
                    assert(dir_wf(empty_dir()));
                }
            }
        }
    } else if path.len() > 1 {
        lemma_lookup_dir(d, path[0]);
        let sub = match lookup(d.dirs, path[0]) {
            Some(x) => x,
            None => empty_dir(),
        };
        lemma_create_wf(sub, path.drop_first());
        lemma_put_dir(d, path[0], create(sub, path.drop_first()).0);
    }
}

/// Writing a file keeps a tree well formed.
pub proof fn lemma_write_wf(d: DirM, path: Seq<Seq<char>>, content: Seq<char>)
    requires
        dir_wf(d),
    ensures
        dir_wf(write(d, path, content).0),
    decreases path.len(),
{
    if path.len() == 1 {
        if lookup(d.files, path[0]) is None {
            assert forall|i: int| 0 <= i < d.files.len() implies d.files[i].0 != path[0] by {
                if d.files[i].0 == path[0] {
                    lemma_first_exists(d.files, path[0], i);
                }
            }
            let r = write(d, path, content).0;
            assert(r.files == d.files.push((path[0], content)));
            assert forall|i: int, j: int|
                0 <= i < r.files.len() && 0 <= j < r.files.len() && i != j implies #[trigger] r.files[i].0
                != #[trigger] r.files[j].0 by {
                if i < d.files.len() && j < d.files.len() {
                    assert(r.files[i] == d.files[i] && r.files[j] == d.files[j]);
                } else if i < d.files.len() {
                    assert(r.files[i] == d.files[i]);
                } else {
                    assert(r.files[j] == d.files[j]);
                }
            }
            assert forall|i: int| 0 <= i < r.dirs.len() implies dir_wf(#[trigger] r.dirs[i].1) by {
                assert(dir_wf(d.dirs[i].1));
            }
        }
    } else if path.len() > 1 {
        lemma_lookup_dir(d, path[0]);
        let sub = match lookup(d.dirs, path[0]) {
            Some(x) => x,
            None => empty_dir(),
        };
        lemma_write_wf(sub, path.drop_first(), content);
        lemma_put_dir(d, path[0], write(sub, path.drop_first(), content).0);
    }
}

} // verus!
