//! The virtual file system that a session browses: directories in an
//! arena, each with its sub-directories and files by name, built once from
//! the site's texts and never changed afterwards.
use crate::text::{bytes_eq, bytes_lt, copy_range, find_byte, push_bytes, rfind_byte, split_lines};
use crate::text::{first_index, last_index, lex_lt, rank, rows, sorted, split_crlf, SLASH};
use crate::text::{lemma_first_index_bounds, lemma_last_index_bounds, lemma_lex_total};
use crate::text::{lemma_lex_transitive, lemma_rank_is};
use vstd::prelude::*;
use vstd::string::StrSliceExecFns;
use vstd::utf8::encode_utf8;

verus! {

/// Names in rising order and their values after `name` has been given
/// `value`: the value has taken the place of an old value for `name`, or
/// name and value have been put where the order wants them.
pub open spec fn inserted<T>(names: Seq<Seq<u8>>, values: Seq<T>, name: Seq<u8>, value: T) -> (
    Seq<Seq<u8>>,
    Seq<T>,
) {
    let p = rank(names, name);
    if 0 <= p < names.len() && names[p] == name {
        (names, values.update(p, value))
    } else {
        (names.insert(p, name), values.insert(p, value))
    }
}

/// A map from names to values that keeps its names in dictionary order.
pub struct NameMap<T> {
    names: Vec<Vec<u8>>,
    values: Vec<T>,
}

impl<T> NameMap<T> {
    /// The names, in rising order.
    pub closed spec fn names(&self) -> Seq<Seq<u8>> {
        rows(self.names@)
    }

    /// The values, each at the position of its name.
    pub closed spec fn values(&self) -> Seq<T> {
        self.values@
    }

    /// One value per name, and the names strictly rising: no name occurs
    /// twice.
    pub open spec fn wf(&self) -> bool {
        &&& self.names().len() == self.values().len()
        &&& sorted(self.names())
    }

    /// Where `name` stands among the names, if it is one of them.
    pub open spec fn spec_position(&self, name: Seq<u8>) -> Option<int> {
        let p = rank(self.names(), name);
        if 0 <= p < self.names().len() && self.names()[p] == name {
            Some(p)
        } else {
            None
        }
    }

    /// The value that `name` maps to, if it maps to one.
    pub open spec fn spec_get(&self, name: Seq<u8>) -> Option<T> {
        match self.spec_position(name) {
            Some(p) => Some(self.values()[p]),
            None => None,
        }
    }

    /// The names and values of the map with `name` mapped to `value`.
    pub open spec fn spec_insert(&self, name: Seq<u8>, value: T) -> (Seq<Seq<u8>>, Seq<T>) {
        inserted(self.names(), self.values(), name, value)
    }

    /// The map without names.
    pub fn new() -> (r: Self)
        ensures
            r.wf(),
            r.names() == Seq::<Seq<u8>>::empty(),
            r.values() == Seq::<T>::empty(),
    {
        let r = Self { names: Vec::new(), values: Vec::new() };
        assert(r.names() =~= Seq::<Seq<u8>>::empty());
        r
    }

    /// The number of names.
    pub fn len(&self) -> (r: usize)
        requires
            self.wf(),
        ensures
            r == self.names().len(),
            r == self.values().len(),
    {
        self.names.len()
    }

    /// The name at position `i`.
    pub fn name_at(&self, i: usize) -> (r: &Vec<u8>)
        requires
            self.wf(),
            i < self.names().len(),
        ensures
            r@ == self.names()[i as int],
    {
        &self.names[i]
    }

    /// The value at position `i`.
    pub fn value_at(&self, i: usize) -> (r: &T)
        requires
            self.wf(),
            i < self.values().len(),
        ensures
            *r == self.values()[i as int],
    {
        &self.values[i]
    }

    /// How many names come strictly before `name`.
    fn rank_of(&self, name: &[u8]) -> (r: usize)
        requires
            self.wf(),
        ensures
            r == rank(self.names(), name@),
            r <= self.names().len(),
    {
        let mut i: usize = 0;
        while i < self.names.len() && bytes_lt(self.names[i].as_slice(), name)
            invariant
                i <= self.names@.len(),
                forall|k: int| 0 <= k < i ==> lex_lt(#[trigger] self.names()[k], name@),
            decreases self.names@.len() - i,
        {
            i += 1;
        }
        proof {
            lemma_rank_is(self.names(), name@, i as int);
        }
        i
    }

    /// Where `name` stands among the names, if it is one of them.
    pub fn position(&self, name: &[u8]) -> (r: Option<usize>)
        requires
            self.wf(),
        ensures
            match r {
                Some(p) => self.spec_position(name@) == Some(p as int),
                None => self.spec_position(name@) is None,
            },
    {
        let p = self.rank_of(name);
        if p < self.names.len() && bytes_eq(self.names[p].as_slice(), name) {
            Some(p)
        } else {
            None
        }
    }

    /// The value that `name` maps to, if it maps to one.
    pub fn get(&self, name: &[u8]) -> (r: Option<&T>)
        requires
            self.wf(),
        ensures
            match r {
                Some(v) => self.spec_get(name@) == Some(*v),
                None => self.spec_get(name@) is None,
            },
    {
        match self.position(name) {
            Some(p) => Some(&self.values[p]),
            None => None,
        }
    }

    /// Maps `name` to `value`. A value that `name` mapped to before is
    /// replaced.
    pub fn insert(&mut self, name: Vec<u8>, value: T)
        requires
            old(self).wf(),
        ensures
            final(self).wf(),
            final(self).names() == old(self).spec_insert(name@, value).0,
            final(self).values() == old(self).spec_insert(name@, value).1,
    {
        let p = self.rank_of(name.as_slice());
        let ghost before = self.names();
        if p < self.names.len() && bytes_eq(self.names[p].as_slice(), name.as_slice()) {
            self.values.set(p, value);
            assert(self.names() =~= before);
        } else {
            proof {
                crate::text::lemma_rank_bounds(before, name@);
                assert forall|i: int, j: int| 0 <= i < j < before.len() + 1 implies lex_lt(
                    #[trigger] before.insert(p as int, name@)[i],
                    #[trigger] before.insert(p as int, name@)[j],
                ) by {
                    let after = before.insert(p as int, name@);
                    if j == p {
                        assert(after[i] == before[i]);
                    } else if i == p {
                        assert(after[j] == before[j - 1]);
                        lemma_lex_total(before[p as int], name@);
                        if j - 1 > p {
                            assert(lex_lt(before[p as int], before[j - 1]));
                            lemma_lex_transitive(name@, before[p as int], before[j - 1]);
                        }
                    } else {
                        let i0 = if i < p { i } else { i - 1 };
                        let j0 = if j < p { j } else { j - 1 };
                        assert(after[i] == before[i0]);
                        assert(after[j] == before[j0]);
                        assert(lex_lt(before[i0], before[j0]));
                    }
                }
            }
            self.names.insert(p, name);
            self.values.insert(p, value);
            assert(self.names() =~= before.insert(p as int, name@));
        }
    }
}

/// What a map holds for `name` after an insertion: the inserted value for
/// the inserted name, and what it held before for every other name.
pub proof fn lemma_get_after_insert<T>(
    m: NameMap<T>,
    after: NameMap<T>,
    name: Seq<u8>,
    value: T,
    other: Seq<u8>,
)
    requires
        m.wf(),
        after.wf(),
        after.names() == m.spec_insert(name, value).0,
        after.values() == m.spec_insert(name, value).1,
    ensures
        after.spec_get(other) == if other == name {
            Some(value)
        } else {
            m.spec_get(other)
        },
{
    let p = rank(m.names(), name);
    crate::text::lemma_rank_bounds(m.names(), name);
    crate::text::lemma_rank_bounds(m.names(), other);
    let q = rank(m.names(), other);
    let names = m.names();
    let names2 = after.names();
    if m.spec_position(name) is Some {
        assert(names2 == names);
    } else {
        if other == name {
            assert forall|k: int| 0 <= k < p implies lex_lt(#[trigger] names2[k], name) by {
                assert(names2[k] == names[k]);
            }
            crate::text::lemma_lex_irreflexive(name);
            lemma_rank_is(names2, name, p);
        } else if lex_lt(other, name) {
            // `other` stands, or would stand, before the new name.
            assert(q <= p) by {
                if q > p {
                    assert(lex_lt(names[p], other));
                    lemma_lex_total(names[p], name);
                    lemma_lex_transitive(names[p], other, name);
                }
            }
            assert forall|k: int| 0 <= k < q implies lex_lt(#[trigger] names2[k], other) by {
                assert(names2[k] == names[k]);
            }
            if q < p {
                assert(names2[q] == names[q]);
            } else {
                assert(names2[q] == name);
                assert(!lex_lt(name, other)) by {
                    if lex_lt(name, other) {
                        lemma_lex_transitive(name, other, name);
                        crate::text::lemma_lex_irreflexive(name);
                    }
                }
            }
            lemma_rank_is(names2, other, q);
            if q < names.len() && names[q] == other {
                assert(q < p) by {
                    if q == p {
                        assert(!lex_lt(names[p], name));
                        lemma_lex_total(names[p], name);
                        lemma_lex_transitive(other, name, other);
                        crate::text::lemma_lex_irreflexive(other);
                    }
                }
            }
        } else {
            // `other` stands, or would stand, after the new name.
            lemma_lex_total(other, name);
            assert(lex_lt(name, other));
            assert(q >= p) by {
                if q < p {
                    assert(lex_lt(names[q], name));
                    assert(!lex_lt(names[q], other));
                    lemma_lex_transitive(names[q], name, other);
                }
            }
            assert forall|k: int| 0 <= k < q + 1 implies lex_lt(#[trigger] names2[k], other) by {
                if k < p {
                    assert(names2[k] == names[k]);
                } else if k == p {
                    assert(names2[k] == name);
                } else {
                    assert(names2[k] == names[k - 1]);
                }
            }
            if q < names.len() {
                assert(names2[q + 1] == names[q]);
            }
            lemma_rank_is(names2, other, q + 1);
        }
    }
}

/// A file: its bytes, and the same bytes cut into lines.
#[derive(Debug, PartialEq, Eq)]
pub struct File {
    /// The bytes of the file.
    pub contents: Vec<u8>,
    /// The lines of the file: what stands between its CR LF pairs. There
    /// is always at least one line, which may be empty.
    pub lines: Vec<Vec<u8>>,
}

impl File {
    /// The lines are the lines of the contents.
    pub open spec fn wf(&self) -> bool {
        rows(self.lines@) == split_crlf(self.contents@)
    }

    /// The file that holds the text `contents`.
    pub fn new(contents: String) -> (r: Self)
        ensures
            r.wf(),
            r.contents@ == encode_utf8(contents@),
            r.lines@.len() >= 1,
    {
        Self::from_bytes(contents.as_str().as_bytes_vec())
    }

    /// The file that holds the bytes `contents`.
    pub fn from_bytes(contents: Vec<u8>) -> (r: Self)
        ensures
            r.wf(),
            r.contents@ == contents@,
            r.lines@.len() >= 1,
    {
        let lines = split_lines(contents.as_slice());
        Self { contents, lines }
    }

    /// The bytes of the file.
    pub fn raw_contents(&self) -> (r: &[u8])
        ensures
            r@ == self.contents@,
    {
        self.contents.as_slice()
    }
}

/// A well-formed file has a line.
pub proof fn lemma_file_has_line(f: File)
    requires
        f.wf(),
    ensures
        f.lines@.len() >= 1,
{
    crate::text::lemma_split_crlf_nonempty(f.contents@);
    assert(rows(f.lines@).len() == f.lines@.len());
}

/// A directory: where it is, what is above it, and what is in it.
pub struct Directory {
    /// The path from the root to this directory. The root is `/`; no other
    /// path ends in a slash.
    pub path: Vec<u8>,
    /// The place of the directory above in the arena. The root has none.
    pub parent: Option<usize>,
    /// The sub-directories by name, each with its place in the arena.
    pub directories: NameMap<usize>,
    /// The files by name.
    pub files: NameMap<File>,
}

impl Directory {
    /// Both maps are in order, every file's lines are the lines of its
    /// contents, and the parent and every sub-directory are among the
    /// first `n` places of the arena.
    pub open spec fn wf(&self, n: int) -> bool {
        &&& self.directories.wf()
        &&& self.files.wf()
        &&& match self.parent {
            Some(p) => p < n,
            None => true,
        }
        &&& forall|k: int|
            0 <= k < self.directories.values().len() ==> #[trigger] self.directories.values()[k]
                < n
        &&& forall|k: int|
            0 <= k < self.files.values().len() ==> (#[trigger] self.files.values()[k]).wf()
    }
}

/// The path of the directory `name` in the directory at `parent` of the
/// arena, whose own path is `path`.
pub open spec fn child_path(path: Seq<u8>, parent: int, name: Seq<u8>) -> Seq<u8> {
    if parent == 0 {
        path + name
    } else {
        path + seq![SLASH] + name
    }
}

/// The one-byte name `.`, which stands for the directory itself.
pub open spec fn dot() -> Seq<u8> {
    seq![46u8]
}

/// The two-byte name `..`, which stands for the directory above.
pub open spec fn dot_dot() -> Seq<u8> {
    seq![46u8, 46u8]
}

/// A snapshot of the whole file system: an arena of directories, the root
/// first.
pub struct SshContent {
    /// The directories. Each is named by its place here.
    pub directories: Vec<Directory>,
}

impl SshContent {
    /// There is a root, it has no parent, and every directory is well
    /// formed within the arena.
    pub open spec fn wf(&self) -> bool {
        &&& self.directories@.len() >= 1
        &&& self.directories@[0].parent is None
        &&& forall|i: int|
            0 <= i < self.directories@.len() ==> (#[trigger] self.directories@[i]).wf(
                self.directories@.len() as int,
            )
    }

    /// Where one segment of a path leads from the directory at `cur`: an
    /// empty segment and `.` stay, `..` goes up and stays at the root, and
    /// any other segment names a sub-directory or leads nowhere.
    pub open spec fn spec_step(&self, cur: int, segment: Seq<u8>) -> Option<int> {
        if segment.len() == 0 || segment == dot() {
            Some(cur)
        } else if segment == dot_dot() {
            match self.directories@[cur].parent {
                Some(p) => Some(p as int),
                None => Some(cur),
            }
        } else {
            match self.directories@[cur].directories.spec_get(segment) {
                Some(i) => Some(i as int),
                None => None,
            }
        }
    }

    /// Where `path` leads from the directory at `cur`, segment by segment,
    /// the segments being what stands between its slashes.
    pub open spec fn spec_walk(&self, cur: int, path: Seq<u8>) -> Option<int>
        decreases path.len(),
    {
        let i = first_index(path, SLASH);
        match self.spec_step(cur, path.take(i)) {
            None => None,
            Some(next) => if 0 <= i < path.len() {
                self.spec_walk(next, path.skip(i + 1))
            } else {
                Some(next)
            },
        }
    }

    /// The place of the directory that `path` names, walking from the root.
    pub open spec fn spec_dir_at(&self, path: Seq<u8>) -> Option<int> {
        self.spec_walk(0, path)
    }

    /// The path of the directory that holds the file which `full_path`
    /// names, seen from the directory at `cur`. What stands before the
    /// last slash names that directory: from the root where `full_path`
    /// begins with a slash, else from the path of the directory at `cur`.
    /// Without a slash the file is in the directory at `cur`.
    pub open spec fn spec_file_dir_path(&self, cur: int, full_path: Seq<u8>) -> Seq<u8> {
        let k = last_index(full_path, SLASH);
        let here = self.directories@[cur].path@;
        if k < 0 {
            here
        } else if k == 0 || full_path[0] == SLASH {
            full_path.take(k)
        } else {
            here + seq![SLASH] + full_path.take(k)
        }
    }

    /// The name of the file that `full_path` names: what follows its last
    /// slash.
    pub open spec fn spec_file_name(full_path: Seq<u8>) -> Seq<u8> {
        full_path.skip(last_index(full_path, SLASH) + 1)
    }

    /// Where the file that `full_path` names is found, seen from the
    /// directory at `cur`: the place of its directory in the arena and
    /// its own position among that directory's files.
    pub open spec fn spec_locate(&self, cur: int, full_path: Seq<u8>) -> Option<(int, int)> {
        match self.spec_dir_at(self.spec_file_dir_path(cur, full_path)) {
            None => None,
            Some(d) => match self.directories@[d].files.spec_position(
                Self::spec_file_name(full_path),
            ) {
                None => None,
                Some(f) => Some((d, f)),
            },
        }
    }

    /// The file system that holds a root directory and nothing else.
    pub fn empty() -> (r: Self)
        ensures
            r.wf(),
            r.directories@.len() == 1,
            r.directories@[0].path@ == seq![SLASH],
            r.directories@[0].directories.names().len() == 0,
            r.directories@[0].files.names().len() == 0,
    {
        let mut path: Vec<u8> = Vec::new();
        path.push(SLASH);
        let root = Directory {
            path,
            parent: None,
            directories: NameMap::new(),
            files: NameMap::new(),
        };
        let mut directories: Vec<Directory> = Vec::new();
        directories.push(root);
        Self { directories }
    }

    /// The directory at place `i` of the arena.
    pub fn get(&self, i: usize) -> (r: &Directory)
        requires
            i < self.directories@.len(),
        ensures
            *r == self.directories@[i as int],
    {
        &self.directories[i]
    }

    /// Where one segment of a path leads from the directory at `cur`.
    fn step(&self, cur: usize, segment: &[u8]) -> (r: Option<usize>)
        requires
            self.wf(),
            cur < self.directories@.len(),
        ensures
            match r {
                Some(i) => self.spec_step(cur as int, segment@) == Some(i as int) && i
                    < self.directories@.len(),
                None => self.spec_step(cur as int, segment@) is None,
            },
    {
        let here = &self.directories[cur];
        assert(here.wf(self.directories@.len() as int));
        let n = segment.len();
        if n == 0 {
            Some(cur)
        } else if n == 1 && segment[0] == 46 {
            assert(segment@ =~= dot());
            Some(cur)
        } else if n == 2 && segment[0] == 46 && segment[1] == 46 {
            assert(segment@ =~= dot_dot());
            match here.parent {
                Some(p) => Some(p),
                None => Some(cur),
            }
        } else {
            assert(segment@ != dot()) by {
                if segment@ == dot() {
                    assert(segment@.len() == 1 && segment@[0] == 46);
                }
            }
            assert(segment@ != dot_dot()) by {
                if segment@ == dot_dot() {
                    assert(segment@.len() == 2 && segment@[0] == 46 && segment@[1] == 46);
                }
            }
            match here.directories.position(segment) {
                Some(p) => {
                    let i = *here.directories.value_at(p);
                    Some(i)
                },
                None => None,
            }
        }
    }

    /// The place of the directory that `path` names, walking from the root.
    pub fn dir_index_at(&self, path: &[u8]) -> (r: Option<usize>)
        requires
            self.wf(),
        ensures
            match r {
                Some(i) => self.spec_dir_at(path@) == Some(i as int) && i < self.directories@.len(),
                None => self.spec_dir_at(path@) is None,
            },
    {
        let n = path.len();
        let mut cur: usize = 0;
        let mut start: usize = 0;
        assert(path@.skip(0) =~= path@);
        loop
            invariant
                self.wf(),
                n == path@.len(),
                start <= n,
                cur < self.directories@.len(),
                self.spec_dir_at(path@) == self.spec_walk(cur as int, path@.skip(start as int)),
            decreases n - start,
        {
            let rest = copy_range(path, start, n);
            assert(rest@ =~= path@.skip(start as int));
            let i = find_byte(rest.as_slice(), SLASH);
            proof {
                lemma_first_index_bounds(rest@, SLASH);
            }
            let segment = copy_range(rest.as_slice(), 0, i);
            assert(segment@ =~= rest@.take(i as int));
            match self.step(cur, segment.as_slice()) {
                None => {
                    return None;
                },
                Some(next) => {
                    if i < rest.len() {
                        assert(rest@.skip(i + 1) =~= path@.skip(start + i + 1));
                        cur = next;
                        start = start + i + 1;
                    } else {
                        return Some(next);
                    }
                },
            }
        }
    }

    /// The directory that `path` names, walking from the root.
    pub fn dir_at(&self, path: &[u8]) -> (r: Option<&Directory>)
        requires
            self.wf(),
        ensures
            match r {
                Some(d) => {
                    &&& self.spec_dir_at(path@) is Some
                    &&& *d == self.directories@[self.spec_dir_at(path@)->0]
                },
                None => self.spec_dir_at(path@) is None,
            },
    {
        match self.dir_index_at(path) {
            Some(i) => Some(&self.directories[i]),
            None => None,
        }
    }

    /// Where the file that `full_path` names is found, seen from the
    /// directory at `current_dir`.
    pub fn locate_file(&self, current_dir: usize, full_path: &[u8]) -> (r: Option<(usize, usize)>)
        requires
            self.wf(),
            current_dir < self.directories@.len(),
        ensures
            match r {
                Some(at) => self.spec_locate(current_dir as int, full_path@) == Some(
                    (at.0 as int, at.1 as int),
                ) && at.0 < self.directories@.len() && at.1
                    < self.directories@[at.0 as int].files.values().len(),
                None => self.spec_locate(current_dir as int, full_path@) is None,
            },
    {
        let n = full_path.len();
        let here = &self.directories[current_dir];
        let mut dir_path: Vec<u8> = Vec::new();
        let name: Vec<u8>;
        proof {
            lemma_last_index_bounds(full_path@, SLASH);
        }
        match rfind_byte(full_path, SLASH) {
            None => {
                push_bytes(&mut dir_path, here.path.as_slice());
                name = copy_range(full_path, 0, n);
                assert(name@ =~= Self::spec_file_name(full_path@));
            },
            Some(k) => {
                if !(k == 0 || full_path[0] == SLASH) {
                    push_bytes(&mut dir_path, here.path.as_slice());
                    dir_path.push(SLASH);
                }
                crate::text::push_range(&mut dir_path, full_path, 0, k);
                name = copy_range(full_path, k + 1, n);
                assert(name@ =~= Self::spec_file_name(full_path@));
                assert(full_path@.subrange(0, k as int) =~= full_path@.take(k as int));
            },
        }
        assert(dir_path@ =~= self.spec_file_dir_path(current_dir as int, full_path@));
        match self.dir_index_at(dir_path.as_slice()) {
            None => None,
            Some(d) => {
                assert(self.directories@[d as int].wf(self.directories@.len() as int));
                match self.directories[d].files.position(name.as_slice()) {
                    None => None,
                    Some(f) => Some((d, f)),
                }
            },
        }
    }

    /// The file that `full_path` names, seen from the directory at
    /// `current_dir`.
    pub fn get_file(&self, current_dir: usize, full_path: &[u8]) -> (r: Option<&File>)
        requires
            self.wf(),
            current_dir < self.directories@.len(),
        ensures
            match r {
                Some(f) => {
                    &&& self.spec_locate(current_dir as int, full_path@) is Some
                    &&& *f == self.spec_file_at(
                        self.spec_locate(current_dir as int, full_path@)->0,
                    )
                    &&& f.wf()
                },
                None => self.spec_locate(current_dir as int, full_path@) is None,
            },
    {
        match self.locate_file(current_dir, full_path) {
            None => None,
            Some(at) => {
                assert(self.directories@[at.0 as int].wf(self.directories@.len() as int));
                Some(self.directories[at.0].files.value_at(at.1))
            },
        }
    }

    /// The file at a place that `spec_locate` gave.
    pub open spec fn spec_file_at(&self, at: (int, int)) -> File {
        self.directories@[at.0].files.values()[at.1]
    }

    /// Adds an empty directory `child_name` to the directory at
    /// `parent_i`, and returns the new directory's place in the arena. A
    /// sub-directory that had the name before is no longer reachable
    /// under it.
    pub fn add_child(&mut self, parent_i: usize, child_name: Vec<u8>) -> (child_i: usize)
        requires
            old(self).wf(),
            parent_i < old(self).directories@.len(),
        ensures
            final(self).wf(),
            child_i == old(self).directories@.len(),
            final(self).directories@.len() == child_i + 1,
            forall|i: int|
                0 <= i < child_i && i != parent_i ==> final(self).directories@[i] == old(
                    self,
                ).directories@[i],
            ({
                let before = old(self).directories@[parent_i as int];
                let after = final(self).directories@[parent_i as int];
                &&& after.path == before.path
                &&& after.parent == before.parent
                &&& after.files == before.files
                &&& after.directories.names() == before.directories.spec_insert(
                    child_name@,
                    child_i,
                ).0
                &&& after.directories.values() == before.directories.spec_insert(
                    child_name@,
                    child_i,
                ).1
            }),
            ({
                let child = final(self).directories@[child_i as int];
                &&& child.path@ == child_path(
                    old(self).directories@[parent_i as int].path@,
                    parent_i as int,
                    child_name@,
                )
                &&& child.parent == Some(parent_i)
                &&& child.directories.names().len() == 0
                &&& child.files.names().len() == 0
            }),
    {
        let child_i = self.directories.len();
        let ghost before = self.directories@;
        let mut path: Vec<u8> = Vec::new();
        push_bytes(&mut path, self.directories[parent_i].path.as_slice());
        if parent_i != 0 {
            path.push(SLASH);
        }
        push_bytes(&mut path, child_name.as_slice());
        let child = Directory {
            path,
            parent: Some(parent_i),
            directories: NameMap::new(),
            files: NameMap::new(),
        };
        assert(before[parent_i as int].wf(before.len() as int));
        let mut parent = self.take_directory(parent_i);
        let ghost old_children = parent.directories;
        parent.directories.insert(child_name, child_i);
        proof {
            let values = parent.directories.values();
            assert forall|k: int| 0 <= k < values.len() implies #[trigger] values[k] < child_i
                + 1 by {
                let p = rank(old_children.names(), child_name@);
                crate::text::lemma_rank_bounds(old_children.names(), child_name@);
                if old_children.spec_position(child_name@) is Some {
                    if k != p {
                        assert(values[k] == old_children.values()[k]);
                    }
                } else {
                    if k < p {
                        assert(values[k] == old_children.values()[k]);
                    } else if k > p {
                        assert(values[k] == old_children.values()[k - 1]);
                    }
                }
            }
        }
        self.directories.set(parent_i, parent);
        self.directories.push(child);
        proof {
            let n = self.directories@.len() as int;
            assert forall|i: int| 0 <= i < n implies (#[trigger] self.directories@[i]).wf(n) by {
                if i < child_i && i != parent_i {
                    assert(self.directories@[i] == before[i]);
                    assert(before[i].wf(before.len() as int));
                }
            }
        }
        child_i
    }

    /// Puts the file `contents` under the name `filename` into the
    /// directory at `dir_i`. A file that had the name before is replaced.
    pub fn add_file(&mut self, dir_i: usize, filename: Vec<u8>, contents: File)
        requires
            old(self).wf(),
            dir_i < old(self).directories@.len(),
            contents.wf(),
        ensures
            final(self).wf(),
            final(self).directories@.len() == old(self).directories@.len(),
            forall|i: int|
                0 <= i < old(self).directories@.len() && i != dir_i ==> final(self).directories@[i]
                    == old(self).directories@[i],
            ({
                let before = old(self).directories@[dir_i as int];
                let after = final(self).directories@[dir_i as int];
                &&& after.path == before.path
                &&& after.parent == before.parent
                &&& after.directories == before.directories
                &&& after.files.names() == before.files.spec_insert(filename@, contents).0
                &&& after.files.values() == before.files.spec_insert(filename@, contents).1
            }),
    {
        let ghost before = self.directories@;
        assert(before[dir_i as int].wf(before.len() as int));
        let mut dir = self.take_directory(dir_i);
        let ghost old_files = dir.files;
        dir.files.insert(filename, contents);
        proof {
            let values = dir.files.values();
            assert forall|k: int| 0 <= k < values.len() implies (#[trigger] values[k]).wf() by {
                let p = rank(old_files.names(), filename@);
                crate::text::lemma_rank_bounds(old_files.names(), filename@);
                if old_files.spec_position(filename@) is Some {
                    if k != p {
                        assert(values[k] == old_files.values()[k]);
                    }
                } else {
                    if k < p {
                        assert(values[k] == old_files.values()[k]);
                    } else if k > p {
                        assert(values[k] == old_files.values()[k - 1]);
                    }
                }
            }
        }
        self.directories.set(dir_i, dir);
        proof {
            let n = self.directories@.len() as int;
            assert forall|i: int| 0 <= i < n implies (#[trigger] self.directories@[i]).wf(n) by {
                if i != dir_i {
                    assert(self.directories@[i] == before[i]);
                    assert(before[i].wf(before.len() as int));
                }
            }
        }
    }

    /// Takes the directory at place `i` out of the arena for a change,
    /// leaving an empty one there until it is put back.
    fn take_directory(&mut self, i: usize) -> (r: Directory)
        requires
            i < old(self).directories@.len(),
        ensures
            r == old(self).directories@[i as int],
            final(self).directories@.len() == old(self).directories@.len(),
            forall|k: int|
                0 <= k < old(self).directories@.len() && k != i ==> final(self).directories@[k]
                    == old(self).directories@[k],
    {
        let blank = Directory {
            path: Vec::new(),
            parent: None,
            directories: NameMap::new(),
            files: NameMap::new(),
        };
        self.directories.push(blank);
        self.directories.swap_remove(i)
    }
}

} // verus!
