//! Projects: directories opened in a window, and the tree of their files as
//! far as the backend has listed it.
use vstd::prelude::*;
use std::path::PathBuf;
use crate::names::{
    name_lt, name_before, lemma_name_lt_irreflexive, lemma_name_lt_transitive, lemma_names_ordered,
    lemma_name_lt_asymmetric,
};
use crate::text::str_eq;

verus! {

/// The number a window gives each project it opens.
pub type ProjectId = usize;

/// `PathBuf::clone`: a copy of the path, the same path.
pub assume_specification[ <PathBuf as Clone>::clone ](p: &PathBuf) -> (c: PathBuf)
    ensures
        c == *p,
;

/// The path that `Path::join` makes of the directory `dir` and the name
/// `name`: the name inside the directory.
pub uninterp spec fn joined_path(dir: PathBuf, name: Seq<char>) -> PathBuf;

/// `Path::join`: the path of `name` inside the directory `dir`.  What the
/// path holds is not stated, as paths are opaque here; the result is the
/// same for the same directory and name.
#[verifier::external_body]
fn path_join(dir: &PathBuf, name: &str) -> (p: PathBuf)
    ensures
        p == joined_path(*dir, name@),
{
    dir.join(name)
}

/// The path of the directory at the relative path `rel` below `dir`: each
/// name of `rel` joined on in turn.
pub open spec fn path_below(dir: PathBuf, rel: Seq<String>) -> PathBuf
    decreases rel.len(),
{
    if rel.len() == 0 {
        dir
    } else {
        joined_path(path_below(dir, rel.drop_last()), rel.last()@)
    }
}

/// A file of a project.
#[derive(Debug, Clone)]
pub struct ProjectPath {
    pub id: ProjectId,
    /// A relative path from the project root
    pub path: PathBuf,
}

/// An entry of a directory listing: a file's name and its mode bits.
#[derive(Debug, Clone)]
pub struct DirEntry {
    pub name: String,
    pub mode: u32,
}

/// The mode bits of a directory.
pub open spec fn is_dir_mode(mode: u32) -> bool {
    mode & 0o170000 == 0o040000
}

impl DirEntry {
    /// Whether the entry is a directory.
    pub fn is_dir(&self) -> (b: bool)
        ensures
            b == is_dir_mode(self.mode),
    {
        self.mode & 0o170000 == 0o040000
    }
}

/// A file or directory of a project.  The entries of a directory, once it
/// has been listed, are kept by name, in the order of the names.
#[derive(Debug)]
pub struct FileNode {
    pub path: PathBuf,
    pub is_dir: bool,
    pub children: Option<Vec<(String, FileNode)>>,
}

impl FileNode {
    /// A node whose entries have not been listed yet.
    pub fn new(path: PathBuf, is_dir: bool) -> (n: Self)
        ensures
            n.path == path,
            n.is_dir == is_dir,
            n.children is None,
    {
        Self { path, is_dir, children: None }
    }
}

/// A directory opened as a project.
#[derive(Debug)]
pub struct Project {
    pub name: String,
    pub dir: PathBuf,
    pub files: Option<Vec<(String, FileNode)>>,
}

impl Project {
    /// A project whose files have not been listed yet.
    pub fn new(name: &str, dir: PathBuf) -> (p: Self)
        ensures
            p.name@ == name@,
            p.dir == dir,
            p.files is None,
    {
        Self { name: name.to_owned(), dir, files: None }
    }
}

/// The entries of a listed directory, or none for one not listed.
pub open spec fn listing(o: Option<Vec<(String, FileNode)>>) -> Option<Seq<(String, FileNode)>> {
    match o {
        Some(v) => Some(v@),
        None => None,
    }
}

/// The names of the entries come in order, each once.
pub open spec fn sorted_names(v: Seq<(String, FileNode)>) -> bool {
    forall|i: int, j: int| 0 <= i < j < v.len() ==> name_lt(v[i].0@, v[j].0@)
}

/// Position `i` holds the first entry named `n`.
pub open spec fn first_named(v: Seq<(String, FileNode)>, n: Seq<char>, i: int) -> bool {
    &&& 0 <= i < v.len()
    &&& v[i].0@ == n
    &&& forall|j: int| 0 <= j < i ==> v[j].0@ != n
}

/// Some entry is named `n`.
pub open spec fn has_name(v: Seq<(String, FileNode)>, n: Seq<char>) -> bool {
    exists|i: int| 0 <= i < v.len() && v[i].0@ == n
}

/// Where the first entry named `n` is.
pub open spec fn name_pos(v: Seq<(String, FileNode)>, n: Seq<char>) -> int {
    choose|i: int| first_named(v, n, i)
}

/// Some entry of the listing is named `n`.
pub open spec fn listed(es: Seq<DirEntry>, n: Seq<char>) -> bool {
    exists|k: int| 0 <= k < es.len() && es[k].name@ == n
}

/// The last entry of the listing named `n` is a directory.
pub open spec fn last_is_dir(es: Seq<DirEntry>, n: Seq<char>) -> bool
    decreases es.len(),
{
    if es.len() == 0 {
        false
    } else if es.last().name@ == n {
        is_dir_mode(es.last().mode)
    } else {
        last_is_dir(es.drop_last(), n)
    }
}

/// Entry `e` is what a listing `es` of the directory at the path `dir`
/// makes of a name given the entries `old` of the directory: the node the
/// name had, or a node not listed yet for the name inside `dir`, a
/// directory if the name's last entry in the listing says so.
pub open spec fn node_from(old: Seq<(String, FileNode)>, es: Seq<DirEntry>, dir: PathBuf, e: (String, FileNode)) -> bool {
    if has_name(old, e.0@) {
        e.1 == old[name_pos(old, e.0@)].1
    } else {
        &&& e.1.path == joined_path(dir, e.0@)
        &&& e.1.is_dir == last_is_dir(es, e.0@)
        &&& e.1.children is None
    }
}

/// `w` is what a listing `es` makes of the entries `old` of the directory at
/// the path `dir`: the names listed, in order, each once, each with its node
/// as `node_from` says.
pub open spec fn merged_into(old: Seq<(String, FileNode)>, es: Seq<DirEntry>, dir: PathBuf, w: Seq<(String, FileNode)>) -> bool {
    &&& sorted_names(w)
    &&& forall|n: Seq<char>| has_name(w, n) <==> listed(es, n)
    &&& forall|i: int| 0 <= i < w.len() ==> node_from(old, es, dir, #[trigger] w[i])
}

/// The first entry with a name is where `name_pos` says.
pub proof fn lemma_name_pos(v: Seq<(String, FileNode)>, n: Seq<char>, i: int)
    requires
        first_named(v, n, i),
    ensures
        name_pos(v, n) == i,
{
    let p = name_pos(v, n);
    assert(first_named(v, n, p));
    if p < i {
        assert(v[p].0@ != n);
    } else if i < p {
        assert(v[i].0@ != n);
    }
}

/// In entries sorted by name, an entry is the first with its name.
pub proof fn lemma_sorted_first(v: Seq<(String, FileNode)>, i: int)
    requires
        sorted_names(v),
        0 <= i < v.len(),
    ensures
        first_named(v, v[i].0@, i),
        name_pos(v, v[i].0@) == i,
{
    assert forall|j: int| 0 <= j < i implies v[j].0@ != v[i].0@ by {
        if v[j].0@ == v[i].0@ {
            assert(name_lt(v[j].0@, v[i].0@));
            lemma_name_lt_irreflexive(v[i].0@, 0);
        }
    }
    lemma_name_pos(v, v[i].0@, i);
}

/// The names of a listing, each once, in order, each with whether its last
/// entry is a directory.
fn listed_names(entries: &[DirEntry]) -> (names: Vec<(String, bool)>)
    ensures
        forall|i: int, j: int| 0 <= i < j < names@.len() ==> name_lt(names@[i].0@, names@[j].0@),
        forall|n: Seq<char>| (exists|i: int| 0 <= i < names@.len() && names@[i].0@ == n) <==> listed(entries@, n),
        forall|i: int| 0 <= i < names@.len() ==> names@[i].1 == last_is_dir(entries@, #[trigger] names@[i].0@),
{
    let mut names: Vec<(String, bool)> = Vec::new();
    let mut k: usize = 0;
    while k < entries.len()
        invariant
            k <= entries@.len(),
            forall|i: int, j: int| 0 <= i < j < names@.len() ==> name_lt(names@[i].0@, names@[j].0@),
            forall|n: Seq<char>| (exists|i: int| 0 <= i < names@.len() && names@[i].0@ == n) <==> listed(entries@.take(k as int), n),
            forall|i: int| 0 <= i < names@.len() ==> names@[i].1 == last_is_dir(entries@.take(k as int), #[trigger] names@[i].0@),
        decreases entries@.len() - k,
    {
        let e = &entries[k];
        let ghost es0 = entries@.take(k as int);
        let ghost es1 = entries@.take(k + 1);
        assert(es1.drop_last() =~= es0);
        assert(es1.last() == entries@[k as int]);
        let ghost before = names@;
        assert forall|a: int, b: int| 0 <= a < b < before.len() implies name_lt(before[a].0@, before[b].0@) by {
            assert(name_lt(names@[a].0@, names@[b].0@));
        }
        let mut p: usize = 0;
        while p < names.len() && name_before(names[p].0.as_str(), e.name.as_str())
            invariant
                names@ == before,
                p <= names@.len(),
                forall|q: int| 0 <= q < p ==> name_lt(names@[q].0@, e.name@),
            decreases names@.len() - p,
        {
            p = p + 1;
        }
        let is_dir = e.is_dir();
        if p < names.len() && str_eq(names[p].0.as_str(), e.name.as_str()) {
            let name = names[p].0.clone();
            names.set(p, (name, is_dir));
            proof {
                assert forall|i: int| 0 <= i < names@.len() implies names@[i].1 == last_is_dir(es1, #[trigger] names@[i].0@) by {
                    if i != p {
                        assert(names@[i] == before[i]);
                        if before[i].0@ == e.name@ {
                            if i < p {
                                lemma_name_lt_irreflexive(e.name@, 0);
                            } else {
                                lemma_name_lt_irreflexive(e.name@, 0);
                            }
                        }
                    }
                }
                assert forall|n: Seq<char>| (exists|i: int| 0 <= i < names@.len() && names@[i].0@ == n) <==> listed(es1, n) by {
                    if exists|i: int| 0 <= i < names@.len() && names@[i].0@ == n {
                        let i = choose|i: int| 0 <= i < names@.len() && names@[i].0@ == n;
                        if i != p {
                            assert(before[i].0@ == n);
                        }
                        if n != e.name@ {
                            assert(listed(es0, n));
                            let kk = choose|kk: int| 0 <= kk < es0.len() && es0[kk].name@ == n;
                            assert(es1[kk] == es0[kk]);
                        } else {
                            assert(es1[k as int].name@ == n);
                        }
                    }
                    if listed(es1, n) {
                        let kk = choose|kk: int| 0 <= kk < es1.len() && es1[kk].name@ == n;
                        if kk < k {
                            assert(es0[kk] == es1[kk]);
                            assert(listed(es0, n));
                            let i = choose|i: int| 0 <= i < before.len() && before[i].0@ == n;
                            assert(names@[i].0@ == n);
                        } else {
                            assert(names@[p as int].0@ == n);
                        }
                    }
                }
                assert forall|i: int, j: int| 0 <= i < j < names@.len() implies name_lt(names@[i].0@, names@[j].0@) by {
                    assert(names@[i].0@ == before[i].0@);
                    assert(names@[j].0@ == before[j].0@);
                }
            }
        } else {
            let name = e.name.clone();
            names.insert(p, (name, is_dir));
            proof {
                if p < before.len() {
                    lemma_names_ordered(before[p as int].0@, e.name@);
                }
                assert forall|i: int, j: int| 0 <= i < j < names@.len() implies name_lt(names@[i].0@, names@[j].0@) by {
                    if j < p {
                        assert(names@[i] == before[i] && names@[j] == before[j]);
                    } else if j == p {
                        assert(names@[i] == before[i]);
                    } else if i < p {
                        assert(names@[i] == before[i] && names@[j] == before[j - 1]);
                        if j - 1 > p {
                            assert(name_lt(before[i].0@, before[p as int].0@));
                            assert(name_lt(before[p as int].0@, before[j - 1].0@));
                            lemma_name_lt_transitive(before[i].0@, before[p as int].0@, before[j - 1].0@, 0);
                        } else {
                            lemma_name_lt_transitive(before[i].0@, e.name@, before[p as int].0@, 0);
                        }
                    } else if i == p {
                        assert(names@[j] == before[j - 1]);
                        if j - 1 > p {
                            assert(name_lt(before[p as int].0@, before[j - 1].0@));
                            lemma_name_lt_transitive(e.name@, before[p as int].0@, before[j - 1].0@, 0);
                        }
                    } else {
                        assert(names@[i] == before[i - 1] && names@[j] == before[j - 1]);
                    }
                }
                assert forall|i: int| 0 <= i < names@.len() implies names@[i].1 == last_is_dir(es1, #[trigger] names@[i].0@) by {
                    if i != p {
                        let bi = if i < p { i } else { i - 1 };
                        assert(names@[i] == before[bi]);
                        if before[bi].0@ == e.name@ {
                            if bi < p {
                                lemma_name_lt_irreflexive(e.name@, 0);
                            } else {
                                if bi > p {
                                    lemma_name_lt_transitive(e.name@, before[p as int].0@, before[bi].0@, 0);
                                }
                                lemma_name_lt_irreflexive(e.name@, 0);
                            }
                        }
                    }
                }
                assert forall|n: Seq<char>| (exists|i: int| 0 <= i < names@.len() && names@[i].0@ == n) <==> listed(es1, n) by {
                    if exists|i: int| 0 <= i < names@.len() && names@[i].0@ == n {
                        let i = choose|i: int| 0 <= i < names@.len() && names@[i].0@ == n;
                        if i != p {
                            let bi = if i < p { i } else { i - 1 };
                            assert(names@[i] == before[bi]);
                            assert(listed(es0, n));
                            let kk = choose|kk: int| 0 <= kk < es0.len() && es0[kk].name@ == n;
                            assert(es1[kk] == es0[kk]);
                        } else {
                            assert(es1[k as int].name@ == n);
                        }
                    }
                    if listed(es1, n) {
                        let kk = choose|kk: int| 0 <= kk < es1.len() && es1[kk].name@ == n;
                        if kk < k {
                            assert(es0[kk] == es1[kk]);
                            assert(listed(es0, n));
                            let i = choose|i: int| 0 <= i < before.len() && before[i].0@ == n;
                            let ni = if i < p { i } else { i + 1 };
                            assert(names@[ni].0@ == n);
                        } else {
                            assert(names@[p as int].0@ == n);
                        }
                    }
                }
            }
        }
        k = k + 1;
    }
    assert(entries@.take(entries@.len() as int) =~= entries@);
    names
}

/// What a listing of a directory makes of its entries `old` (none when it
/// had not been listed): the entries of the names listed, in order; a name
/// that was there keeps its node, a new one gets a node for its path inside
/// `dir_path`.
pub fn merge_listing(
    old: Option<Vec<(String, FileNode)>>,
    dir_path: &PathBuf,
    entries: &[DirEntry],
) -> (w: Vec<(String, FileNode)>)
    requires
        old matches Some(v) ==> sorted_names(v@),
    ensures
        merged_into(
            match old {
                Some(v) => v@,
                None => Seq::empty(),
            },
            entries@,
            *dir_path,
            w@,
        ),
{
    let names = listed_names(entries);
    let mut rest: Vec<(String, FileNode)> = match old {
        Some(v) => v,
        None => Vec::new(),
    };
    let ghost old0 = rest@;
    let ghost n = names@;
    let ghost es = entries@;
    let ghost mut d: int = 0;
    let mut w: Vec<(String, FileNode)> = Vec::new();
    let mut j: usize = 0;
    while j < names.len()
        invariant
            names@ == n,
            entries@ == es,
            sorted_names(old0),
            forall|a: int, b: int| 0 <= a < b < n.len() ==> name_lt(n[a].0@, n[b].0@),
            forall|i: int| 0 <= i < n.len() ==> n[i].1 == last_is_dir(es, #[trigger] n[i].0@),
            0 <= d <= old0.len(),
            rest@ == old0.skip(d),
            j <= n.len(),
            w@.len() == j,
            forall|i: int| 0 <= i < j ==> w@[i].0@ == n[i].0@,
            forall|i: int| 0 <= i < j ==> node_from(old0, es, *dir_path, #[trigger] w@[i]),
            j < n.len() ==> forall|q: int| 0 <= q < d ==> name_lt(old0[q].0@, n[j as int].0@),
        decreases n.len() - j,
    {
        while rest.len() > 0 && name_before(rest[0].0.as_str(), names[j].0.as_str())
            invariant
                names@ == n,
                j < n.len(),
                0 <= d <= old0.len(),
                rest@ == old0.skip(d),
                forall|q: int| 0 <= q < d ==> name_lt(old0[q].0@, n[j as int].0@),
            decreases rest@.len(),
        {
            assert(rest@[0] == old0[d]);
            rest.remove(0);
            proof {
                d = d + 1;
            }
            assert(rest@ =~= old0.skip(d));
        }
        let ghost nj = n[j as int].0@;
        if rest.len() > 0 && str_eq(rest[0].0.as_str(), names[j].0.as_str()) {
            assert(rest@[0] == old0[d]);
            let e = rest.remove(0);
            proof {
                lemma_sorted_first(old0, d);
                assert(node_from(old0, es, *dir_path, e));
                if j + 1 < n.len() {
                    assert(name_lt(nj, n[j + 1].0@));
                    assert forall|q: int| 0 <= q < d + 1 implies name_lt(old0[q].0@, n[j + 1].0@) by {
                        if q < d {
                            lemma_name_lt_transitive(old0[q].0@, nj, n[j + 1].0@, 0);
                        }
                    }
                }
                d = d + 1;
            }
            assert(rest@ =~= old0.skip(d));
            w.push(e);
        } else {
            proof {
                if has_name(old0, nj) {
                    let q = choose|q: int| 0 <= q < old0.len() && old0[q].0@ == nj;
                    if q < d {
                        lemma_name_lt_irreflexive(nj, 0);
                    } else {
                        assert(rest@[0] == old0[d]);
                        if q > d {
                            assert(name_lt(old0[d].0@, old0[q].0@));
                        }
                    }
                }
                if j + 1 < n.len() {
                    assert(name_lt(nj, n[j + 1].0@));
                    assert forall|q: int| 0 <= q < d implies name_lt(old0[q].0@, n[j + 1].0@) by {
                        lemma_name_lt_transitive(old0[q].0@, nj, n[j + 1].0@, 0);
                    }
                }
            }
            let name = names[j].0.clone();
            let node = FileNode::new(path_join(dir_path, name.as_str()), names[j].1);
            assert(node_from(old0, es, *dir_path, (name, node)));
            w.push((name, node));
        }
        j = j + 1;
    }
    proof {
        assert forall|a: int, b: int| 0 <= a < b < w@.len() implies name_lt(w@[a].0@, w@[b].0@) by {
            assert(name_lt(n[a].0@, n[b].0@));
        }
        assert forall|i: int| 0 <= i < w@.len() implies node_from(old0, es, *dir_path, #[trigger] w@[i]) by {}
        assert forall|x: Seq<char>| has_name(w@, x) <==> listed(es, x) by {
            if has_name(w@, x) {
                let i = choose|i: int| 0 <= i < w@.len() && w@[i].0@ == x;
                assert(n[i].0@ == x);
            }
            if listed(es, x) {
                let i = choose|i: int| 0 <= i < n.len() && n[i].0@ == x;
                assert(w@[i].0@ == x);
            }
        }
    }
    w
}

/// One step down the tree: the entries of the directory named `n` among the
/// entries `files`, if it is there and has been listed.
pub open spec fn step_down(files: Option<Seq<(String, FileNode)>>, n: Seq<char>) -> Option<Seq<(String, FileNode)>> {
    match files {
        Some(v) => if has_name(v, n) {
            listing(v[name_pos(v, n)].1.children)
        } else {
            None
        },
        None => None,
    }
}

/// The entries of the directory at the relative path `rel` below the
/// entries `files`, if every directory on the way is there and has been
/// listed.
pub open spec fn entries_at(files: Option<Seq<(String, FileNode)>>, rel: Seq<String>) -> Option<Seq<(String, FileNode)>>
    decreases rel.len(),
{
    if rel.len() == 0 {
        files
    } else {
        entries_at(step_down(files, rel[0]@), rel.drop_first())
    }
}

/// Where the first entry named `name` is, if there is one.
fn find_name(v: &Vec<(String, FileNode)>, name: &str) -> (r: Option<usize>)
    ensures
        r matches Some(i) ==> first_named(v@, name@, i as int),
        r is None ==> !has_name(v@, name@),
{
    let mut i: usize = 0;
    while i < v.len()
        invariant
            i <= v@.len(),
            forall|j: int| 0 <= j < i ==> v@[j].0@ != name@,
        decreases v@.len() - i,
    {
        if str_eq(v[i].0.as_str(), name) {
            return Some(i);
        }
        i = i + 1;
    }
    None
}

impl Project {
    /// Given a relative path under a project, return a list of FileNodes
    pub fn child_file_nodes(&self, rel_path: &[String]) -> (r: Option<&Vec<(String, FileNode)>>)
        ensures
            entries_at(listing(self.files), rel_path@) == match r {
                Some(v) => Some(v@),
                None => None::<Seq<(String, FileNode)>>,
            },
    {
        let mut files: Option<&Vec<(String, FileNode)>> = match &self.files {
            Some(v) => Some(v),
            None => None,
        };
        let mut k: usize = 0;
        assert(rel_path@.skip(0) =~= rel_path@);
        assert(match files {
            Some(v) => Some(v@),
            None => None::<Seq<(String, FileNode)>>,
        } == listing(self.files));
        while k < rel_path.len()
            invariant
                k <= rel_path@.len(),
                entries_at(
                    match files {
                        Some(v) => Some(v@),
                        None => None::<Seq<(String, FileNode)>>,
                    },
                    rel_path@.skip(k as int),
                ) == entries_at(listing(self.files), rel_path@),
            decreases rel_path@.len() - k,
        {
            let ghost cur = match files {
                Some(v) => Some(v@),
                None => None::<Seq<(String, FileNode)>>,
            };
            assert(rel_path@.skip(k as int).drop_first() =~= rel_path@.skip(k + 1));
            assert(rel_path@.skip(k as int)[0] == rel_path@[k as int]);
            files = match files {
                Some(fs) => match find_name(fs, rel_path[k].as_str()) {
                    Some(i) => {
                        proof {
                            lemma_name_pos(fs@, rel_path@[k as int]@, i as int);
                        }
                        match &fs[i].1.children {
                            Some(c) => Some(c),
                            None => None,
                        }
                    },
                    None => None,
                },
                None => None,
            };
            k = k + 1;
        }
        assert(rel_path@.skip(k as int) =~= Seq::<String>::empty());
        files
    }
}

/// `new` is what a listing `es` of the directory at the relative path `rel`,
/// whose path is `dir`, makes of the entries `old`: on the way down each directory keeps its
/// other entries, and the entry walked into keeps its name, path and kind;
/// the directory at `rel` gets the listing merged in, also when it had not
/// been listed before.  Nothing changes when a directory on the way is
/// missing or has not been listed.
pub open spec fn refreshed(
    old: Option<Seq<(String, FileNode)>>,
    new: Option<Seq<(String, FileNode)>>,
    rel: Seq<String>,
    es: Seq<DirEntry>,
    dir: PathBuf,
) -> bool
    decreases rel.len(),
{
    if rel.len() == 0 {
        new matches Some(w) && merged_into(
            match old {
                Some(v) => v,
                None => Seq::empty(),
            },
            es,
            dir,
            w,
        )
    } else {
        match old {
            None => new is None,
            Some(v) => if !has_name(v, rel[0]@) {
                new == old
            } else {
                let i = name_pos(v, rel[0]@);
                new matches Some(w) && w.len() == v.len() && w[i].0 == v[i].0 && w[i].1.path
                    == v[i].1.path && w[i].1.is_dir == v[i].1.is_dir && (forall|j: int|
                    0 <= j < v.len() && j != i ==> w[j] == v[j]) && refreshed(
                    listing(v[i].1.children),
                    listing(w[i].1.children),
                    rel.drop_first(),
                    es,
                    dir,
                )
            },
        }
    }
}

/// Merges a listing into the directory at the path `rel[k..]` below
/// `files`.
fn refresh_listing(
    files: &mut Option<Vec<(String, FileNode)>>,
    rel: &[String],
    k: usize,
    dir_path: &PathBuf,
    entries: &[DirEntry],
)
    requires
        k <= rel@.len(),
        entries_at(listing(*old(files)), rel@.skip(k as int)) matches Some(v) ==> sorted_names(v),
    ensures
        refreshed(listing(*old(files)), listing(*final(files)), rel@.skip(k as int), entries@, *dir_path),
    decreases rel@.len() - k,
{
    let ghost r = rel@.skip(k as int);
    if k == rel.len() {
        assert(r.len() == 0);
        let old_files = files.take();
        *files = Some(merge_listing(old_files, dir_path, entries));
        return;
    }
    assert(r[0] == rel@[k as int]);
    assert(r.drop_first() =~= rel@.skip(k + 1));
    let taken = files.take();
    match taken {
        None => {},
        Some(mut v) => {
            let ghost v0 = v@;
            match find_name(&v, rel[k].as_str()) {
                None => {},
                Some(i) => {
                    proof {
                        lemma_name_pos(v0, rel@[k as int]@, i as int);
                    }
                    let (name, mut node) = v.remove(i);
                    assert(v0[i as int] == (name, node));
                    refresh_listing(&mut node.children, rel, k + 1, dir_path, entries);
                    v.insert(i, (name, node));
                    proof {
                        let w = v@;
                        assert forall|j: int| 0 <= j < v0.len() && j != i implies w[j] == v0[j] by {
                            if j < i {
                                assert(w[j] == v0[j]);
                            } else {
                                assert(w[j] == v0[j]);
                            }
                        }
                    }
                },
            }
            *files = Some(v);
        },
    }
}

impl Project {
    /// What a listing of the directory at `rel_path`, below the project's
    /// directory, makes of the project's tree (see `refreshed`).  New nodes
    /// get the paths of their names inside that directory, whose path is the
    /// names of `rel_path` joined in turn onto the project's directory.
    pub fn apply_listing(&mut self, rel_path: &[String], entries: &[DirEntry])
        requires
            entries_at(listing(old(self).files), rel_path@) matches Some(v) ==> sorted_names(v),
        ensures
            refreshed(
                listing(old(self).files),
                listing(final(self).files),
                rel_path@,
                entries@,
                path_below(old(self).dir, rel_path@),
            ),
            final(self).name == old(self).name,
            final(self).dir == old(self).dir,
    {
        let mut dir_path = self.dir.clone();
        let mut k: usize = 0;
        while k < rel_path.len()
            invariant
                k <= rel_path@.len(),
                dir_path == path_below(self.dir, rel_path@.take(k as int)),
            decreases rel_path@.len() - k,
        {
            dir_path = path_join(&dir_path, rel_path[k].as_str());
            assert(rel_path@.take(k + 1).drop_last() =~= rel_path@.take(k as int));
            k = k + 1;
        }
        assert(rel_path@.take(k as int) =~= rel_path@);
        assert(rel_path@.skip(0) =~= rel_path@);
        refresh_listing(&mut self.files, rel_path, 0, &dir_path, entries);
    }
}

/// Two lists of entries sorted by name that hold the same names hold them
/// at the same places.
proof fn lemma_same_sorted_names(a: Seq<(String, FileNode)>, b: Seq<(String, FileNode)>)
    requires
        sorted_names(a),
        sorted_names(b),
        forall|n: Seq<char>| has_name(a, n) <==> has_name(b, n),
    ensures
        a.len() == b.len(),
        forall|i: int| 0 <= i < a.len() ==> #[trigger] a[i].0@ == b[i].0@,
    decreases a.len(),
{
    if a.len() == 0 {
        if b.len() > 0 {
            assert(has_name(b, b[0].0@));
        }
        return;
    }
    if b.len() == 0 {
        assert(has_name(a, a[0].0@));
        return;
    }
    let a0 = a[0].0@;
    let b0 = b[0].0@;
    assert(has_name(a, a0));
    assert(has_name(b, b0));
    let p = choose|p: int| 0 <= p < b.len() && b[p].0@ == a0;
    let q = choose|q: int| 0 <= q < a.len() && a[q].0@ == b0;
    if p > 0 {
        assert(name_lt(b0, a0));
        if q > 0 {
            assert(name_lt(a0, b0));
            lemma_name_lt_asymmetric(a0, b0, 0);
        } else {
            lemma_name_lt_irreflexive(a0, 0);
        }
    }
    assert(a0 == b0);
    let ta = a.drop_first();
    let tb = b.drop_first();
    assert forall|n: Seq<char>| has_name(ta, n) <==> has_name(tb, n) by {
        if has_name(ta, n) {
            let i = choose|i: int| 0 <= i < ta.len() && ta[i].0@ == n;
            assert(a[i + 1].0@ == n);
            assert(name_lt(a0, n));
            assert(has_name(a, n));
            let j = choose|j: int| 0 <= j < b.len() && b[j].0@ == n;
            if j == 0 {
                lemma_name_lt_irreflexive(a0, 0);
            }
            assert(tb[j - 1].0@ == n);
        }
        if has_name(tb, n) {
            let i = choose|i: int| 0 <= i < tb.len() && tb[i].0@ == n;
            assert(b[i + 1].0@ == n);
            assert(name_lt(b0, n));
            assert(has_name(b, n));
            let j = choose|j: int| 0 <= j < a.len() && a[j].0@ == n;
            if j == 0 {
                lemma_name_lt_irreflexive(b0, 0);
            }
            assert(ta[j - 1].0@ == n);
        }
    }
    lemma_same_sorted_names(ta, tb);
    assert forall|i: int| 0 <= i < a.len() implies #[trigger] a[i].0@ == b[i].0@ by {
        if i > 0 {
            assert(ta[i - 1].0@ == tb[i - 1].0@);
        }
    }
}

/// Merging the same listing into a directory a second time changes nothing:
/// the same names, in the same places, with the same nodes.
pub proof fn lemma_merge_listing_twice(
    old: Seq<(String, FileNode)>,
    es: Seq<DirEntry>,
    dir: PathBuf,
    w1: Seq<(String, FileNode)>,
    w2: Seq<(String, FileNode)>,
)
    requires
        merged_into(old, es, dir, w1),
        merged_into(w1, es, dir, w2),
    ensures
        w2.len() == w1.len(),
        forall|i: int| 0 <= i < w1.len() ==> w2[i].0@ == w1[i].0@ && w2[i].1 == w1[i].1,
{
    lemma_same_sorted_names(w1, w2);
    assert forall|i: int| 0 <= i < w1.len() implies w2[i].0@ == w1[i].0@ && w2[i].1 == w1[i].1 by {
        assert(w1[i].0@ == w2[i].0@);
        lemma_sorted_first(w1, i);
        assert(has_name(w1, w2[i].0@));
        assert(node_from(w1, es, dir, w2[i]));
    }
}

} // verus!
