use crate::mir::Function;
use vstd::prelude::*;

verus! {

/// All analysed functions of one source file, in the order they were found.
#[derive(Clone, PartialEq, Eq, Debug)]
pub struct File {
    pub items: Vec<Function>,
}

/// No two entries name the same path.
pub open spec fn paths_unique(s: Seq<(String, File)>) -> bool {
    forall|i: int, j: int| 0 <= i < j < s.len() ==> s[i].0@ != s[j].0@
}

/// Some entry names path `p`.
pub open spec fn has_path(s: Seq<(String, File)>, p: Seq<char>) -> bool {
    exists|i: int| 0 <= i < s.len() && s[i].0@ == p
}

/// The map from path to functions that a list of entries stands for.
pub open spec fn entries_view(s: Seq<(String, File)>) -> Map<Seq<char>, Seq<Function>> {
    Map::new(
        |p: Seq<char>| has_path(s, p),
        |p: Seq<char>| s[choose|i: int| 0 <= i < s.len() && s[i].0@ == p].1.items@,
    )
}

/// Result of merging workspace `b` into workspace `a`: a path of `b` already
/// in `a` gets `b`'s functions after its own; any other path of `b` is added
/// as it is.
pub open spec fn merged(a: Map<Seq<char>, Seq<Function>>, b: Map<Seq<char>, Seq<Function>>) -> Map<
    Seq<char>,
    Seq<Function>,
> {
    Map::new(
        |p: Seq<char>| a.contains_key(p) || b.contains_key(p),
        |p: Seq<char>|
            if !b.contains_key(p) {
                a[p]
            } else if a.contains_key(p) {
                a[p] + b[p]
            } else {
                b[p]
            },
    )
}

proof fn lemma_entry(s: Seq<(String, File)>, i: int)
    requires
        paths_unique(s),
        0 <= i < s.len(),
    ensures
        entries_view(s).contains_key(s[i].0@),
        entries_view(s)[s[i].0@] == s[i].1.items@,
{
    let p = s[i].0@;
    assert(has_path(s, p));
    let j = choose|j: int| 0 <= j < s.len() && s[j].0@ == p;
    assert(j == i);
}

proof fn lemma_push(s: Seq<(String, File)>, e: (String, File))
    requires
        paths_unique(s),
        !has_path(s, e.0@),
    ensures
        paths_unique(s.push(e)),
        entries_view(s.push(e)) == entries_view(s).insert(e.0@, e.1.items@),
{
    let t = s.push(e);
    assert forall|i: int, j: int| 0 <= i < j < t.len() implies t[i].0@ != t[j].0@ by {
        if j == s.len() {
            assert(s[i].0@ != e.0@);
        }
    }
    assert forall|p: Seq<char>| has_path(t, p) == (has_path(s, p) || p == e.0@) by {
        if has_path(t, p) {
            let i = choose|i: int| 0 <= i < t.len() && t[i].0@ == p;
            if i < s.len() {
                assert(s[i].0@ == p);
            }
        }
        if has_path(s, p) {
            let i = choose|i: int| 0 <= i < s.len() && s[i].0@ == p;
            assert(t[i].0@ == p);
        }
        if p == e.0@ {
            assert(t[s.len() as int].0@ == p);
        }
    }
    assert forall|p: Seq<char>| #[trigger] entries_view(t).contains_key(p) implies entries_view(
        t,
    )[p] == entries_view(s).insert(e.0@, e.1.items@)[p] by {
        let i = choose|i: int| 0 <= i < t.len() && t[i].0@ == p;
        lemma_entry(t, i);
        if i < s.len() {
            lemma_entry(s, i);
        }
    }
    assert(entries_view(t) =~= entries_view(s).insert(e.0@, e.1.items@));
}

proof fn lemma_update(s: Seq<(String, File)>, j: int, e: (String, File))
    requires
        paths_unique(s),
        0 <= j < s.len(),
        e.0@ == s[j].0@,
    ensures
        paths_unique(s.update(j, e)),
        entries_view(s.update(j, e)) == entries_view(s).insert(e.0@, e.1.items@),
{
    let t = s.update(j, e);
    assert forall|i: int, k: int| 0 <= i < k < t.len() implies t[i].0@ != t[k].0@ by {
        assert(t[i].0@ == s[i].0@);
        assert(t[k].0@ == s[k].0@);
    }
    assert forall|p: Seq<char>| has_path(t, p) == has_path(s, p) by {
        if has_path(t, p) {
            let i = choose|i: int| 0 <= i < t.len() && t[i].0@ == p;
            assert(s[i].0@ == p);
        }
        if has_path(s, p) {
            let i = choose|i: int| 0 <= i < s.len() && s[i].0@ == p;
            assert(t[i].0@ == p);
        }
    }
    lemma_entry(s, j);
    assert forall|p: Seq<char>| #[trigger] entries_view(t).contains_key(p) implies entries_view(
        t,
    )[p] == entries_view(s).insert(e.0@, e.1.items@)[p] by {
        let i = choose|i: int| 0 <= i < t.len() && t[i].0@ == p;
        lemma_entry(t, i);
        lemma_entry(s, i);
    }
    assert(entries_view(t) =~= entries_view(s).insert(e.0@, e.1.items@));
}

proof fn lemma_suffix(s: Seq<(String, File)>, n: int)
    requires
        paths_unique(s),
        0 <= n < s.len(),
    ensures
        paths_unique(s.subrange(n + 1, s.len() as int)),
        !entries_view(s.subrange(n + 1, s.len() as int)).contains_key(s[n].0@),
        entries_view(s.subrange(n, s.len() as int)) == entries_view(
            s.subrange(n + 1, s.len() as int),
        ).insert(s[n].0@, s[n].1.items@),
{
    let t = s.subrange(n + 1, s.len() as int);
    let u = s.subrange(n, s.len() as int);
    if has_path(t, s[n].0@) {
        let i = choose|i: int| 0 <= i < t.len() && t[i].0@ == s[n].0@;
        assert(s[n + 1 + i].0@ == s[n].0@);
    }
    let e = s[n];
    let v = seq![e] + t;
    assert(u =~= v);
    assert forall|i: int, j: int| 0 <= i < j < u.len() implies u[i].0@ != u[j].0@ by {
        assert(u[i] == s[n + i]);
        assert(u[j] == s[n + j]);
    }
    assert forall|p: Seq<char>| has_path(u, p) == (has_path(t, p) || p == e.0@) by {
        if has_path(u, p) {
            let i = choose|i: int| 0 <= i < u.len() && u[i].0@ == p;
            if i > 0 {
                assert(t[i - 1].0@ == p);
            }
        }
        if has_path(t, p) {
            let i = choose|i: int| 0 <= i < t.len() && t[i].0@ == p;
            assert(u[i + 1].0@ == p);
        }
        if p == e.0@ {
            assert(u[0].0@ == p);
        }
    }
    assert forall|p: Seq<char>| #[trigger] entries_view(u).contains_key(p) implies entries_view(
        u,
    )[p] == entries_view(t).insert(e.0@, e.1.items@)[p] by {
        let i = choose|i: int| 0 <= i < u.len() && u[i].0@ == p;
        lemma_entry(u, i);
        if i > 0 {
            lemma_entry(t, i - 1);
        }
    }
    assert(entries_view(u) =~= entries_view(t).insert(e.0@, e.1.items@));
}

proof fn lemma_merged_insert(
    a: Map<Seq<char>, Seq<Function>>,
    b: Map<Seq<char>, Seq<Function>>,
    p: Seq<char>,
    fs: Seq<Function>,
)
    requires
        !b.contains_key(p),
    ensures
        merged(a, b.insert(p, fs)) == merged(a, b).insert(
            p,
            if merged(a, b).contains_key(p) {
                merged(a, b)[p] + fs
            } else {
                fs
            },
        ),
{
    assert(merged(a, b.insert(p, fs)) =~= merged(a, b).insert(
        p,
        if merged(a, b).contains_key(p) {
            merged(a, b)[p] + fs
        } else {
            fs
        },
    ));
}

proof fn lemma_len(s: Seq<(String, File)>)
    requires
        paths_unique(s),
    ensures
        entries_view(s).len() == s.len(),
{
    let paths = s.map_values(|e: (String, File)| e.0@);
    assert(paths.no_duplicates());
    paths.unique_seq_to_set();
    assert forall|p: Seq<char>| paths.to_set().contains(p) == has_path(s, p) by {
        if has_path(s, p) {
            let i = choose|i: int| 0 <= i < s.len() && s[i].0@ == p;
            assert(paths[i] == p);
        }
    }
    assert(entries_view(s).dom() =~= paths.to_set());
}

/// Position of the entry for `path`, if there is one.
fn find_path(files: &Vec<(String, File)>, path: &String) -> (r: Option<usize>)
    ensures
        match r {
            Some(j) => j < files@.len() && files@[j as int].0@ == path@,
            None => !has_path(files@, path@),
        },
{
    let mut j: usize = 0;
    while j < files.len()
        invariant
            j <= files@.len(),
            forall|i: int| 0 <= i < j ==> files@[i].0@ != path@,
        decreases files@.len() - j,
    {
        if files[j].0 == *path {
            return Some(j);
        }
        j = j + 1;
    }
    None
}

/// The whole analysed program: for each source file path, its functions.
pub struct Workspace {
    files: Vec<(String, File)>,
}

impl View for Workspace {
    type V = Map<Seq<char>, Seq<Function>>;

    closed spec fn view(&self) -> Map<Seq<char>, Seq<Function>> {
        entries_view(self.files@)
    }
}

impl Workspace {
    /// Each path has one entry.
    pub closed spec fn wf(&self) -> bool {
        paths_unique(self.files@)
    }

    /// A workspace with no files.
    pub fn new() -> (r: Workspace)
        ensures
            r.wf(),
            r@ == Map::<Seq<char>, Seq<Function>>::empty(),
    {
        let r = Workspace { files: Vec::new() };
        assert(r@ =~= Map::<Seq<char>, Seq<Function>>::empty());
        r
    }

    /// Sets the functions of `path` to those of `file`, replacing what was
    /// there.
    pub fn insert(&mut self, path: String, file: File)
        requires
            old(self).wf(),
        ensures
            final(self).wf(),
            final(self)@ == old(self)@.insert(path@, file.items@),
    {
        match find_path(&self.files, &path) {
            Some(j) => {
                proof {
                    lemma_update(self.files@, j as int, (path, file));
                }
                self.files[j] = (path, file);
            },
            None => {
                proof {
                    lemma_push(self.files@, (path, file));
                }
                self.files.push((path, file));
            },
        }
    }

    /// The file stored for `path`, if any.
    pub fn get(&self, path: &String) -> (r: Option<&File>)
        requires
            self.wf(),
        ensures
            match r {
                Some(f) => self@.contains_key(path@) && f.items@ == self@[path@],
                None => !self@.contains_key(path@),
            },
    {
        match find_path(&self.files, path) {
            Some(j) => {
                proof {
                    lemma_entry(self.files@, j as int);
                }
                Some(&self.files[j].1)
            },
            None => None,
        }
    }

    /// Number of files.
    pub fn len(&self) -> (r: usize)
        requires
            self.wf(),
        ensures
            r == self@.len(),
    {
        proof {
            lemma_len(self.files@);
        }
        self.files.len()
    }

    /// The entries, one per path, in no particular order.
    pub fn into_files(self) -> (r: Vec<(String, File)>)
        requires
            self.wf(),
        ensures
            paths_unique(r@),
            entries_view(r@) == self@,
    {
        self.files
    }

    /// Folds `other` into `self`: a path present in both keeps its own
    /// functions followed by those of `other`, with no deduplication; a path
    /// only in `other` is added with its file.
    pub fn merge(self, other: Workspace) -> (r: Workspace)
        requires
            self.wf(),
            other.wf(),
        ensures
            r.wf(),
            r@ == merged(self@, other@),
    {
        let ghost all = other.files@;
        let ghost total = all.len() as int;
        let mut files = self.files;
        let mut rest = other.files;
        proof {
            assert(all.subrange(total, total) =~= Seq::<(String, File)>::empty());
            assert(entries_view(Seq::<(String, File)>::empty()) =~= Map::<
                Seq<char>,
                Seq<Function>,
            >::empty());
            assert(merged(self@, Map::empty()) =~= self@);
            assert(all.subrange(0, total) =~= all);
        }
        while rest.len() > 0
            invariant
                paths_unique(all),
                paths_unique(files@),
                rest@ == all.take(rest@.len() as int),
                rest@.len() <= total,
                total == all.len(),
                entries_view(files@) == merged(
                    self@,
                    entries_view(all.subrange(rest@.len() as int, total)),
                ),
                other@ == entries_view(all),
            decreases rest@.len(),
        {
            let ghost n = rest@.len() - 1;
            let (path, mut file) = rest.pop().unwrap();
            proof {
                assert(all[n] == (path, file));
                lemma_suffix(all, n);
                lemma_merged_insert(
                    self@,
                    entries_view(all.subrange(n + 1, total)),
                    path@,
                    file.items@,
                );
                assert(rest@ =~= all.take(n));
            }
            match find_path(&files, &path) {
                Some(j) => {
                    proof {
                        lemma_entry(files@, j as int);
                    }
                    let ghost before = files@;
                    let ghost added = file.items@;
                    files[j].1.items.append(&mut file.items);
                    proof {
                        let e = files@[j as int];
                        assert(e.0@ == before[j as int].0@);
                        assert(e.1.items@ == before[j as int].1.items@ + added);
                        assert(files@ =~= before.update(j as int, e));
                        lemma_update(before, j as int, e);
                    }
                },
                None => {
                    proof {
                        lemma_push(files@, (path, file));
                    }
                    files.push((path, file));
                },
            }
        }
        proof {
            assert(all.subrange(0, total) =~= all);
        }
        Workspace { files }
    }
}

} // verus!
