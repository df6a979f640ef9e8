use vstd::prelude::*;
use crate::error::Error;
use crate::instruction::{Instruction, InstructionView};

verus! {

/// A tree of the directories and files that the instructions version, each
/// path given by its components.
#[derive(Debug)]
pub struct Directory {
    name: String,
    subdirectories: Vec<Directory>,
    files: Vec<Vec<String>>,
}

/// The position of the first child named `name`.
pub closed spec fn spec_child_index(children: Seq<Directory>, name: Seq<char>) -> Option<int>
    decreases children.len(),
{
    if children.len() == 0 {
        None
    } else if children[0].name@ == name {
        Some(0)
    } else {
        match spec_child_index(children.drop_first(), name) {
            Some(i) => Some(i + 1),
            None => None,
        }
    }
}

/// The directory reached from `d` by following `path`, if every step exists.
pub closed spec fn spec_find_dir(d: Directory, path: Seq<Seq<char>>) -> Option<Directory>
    decreases path.len(),
{
    if path.len() == 0 {
        Some(d)
    } else {
        match spec_child_index(d.subdirectories@, path[0]) {
            Some(i) => spec_find_dir(d.subdirectories@[i], path.drop_first()),
            None => None,
        }
    }
}

impl Directory {
    /// Whether the directory at `path` (below this one) exists.
    pub closed spec fn spec_has_dir(&self, path: Seq<Seq<char>>) -> bool {
        spec_find_dir(*self, path) is Some
    }

    /// The files recorded in the directory at `path`; none where it does not exist.
    pub closed spec fn spec_files_at(&self, path: Seq<Seq<char>>) -> Seq<Seq<Seq<char>>> {
        match spec_find_dir(*self, path) {
            Some(x) => x.files.deep_view(),
            None => seq![],
        }
    }

    /// The name of this directory.
    pub closed spec fn spec_name(&self) -> Seq<char> {
        self.name@
    }

    /// The names of the subdirectories, in the order they were added.
    pub closed spec fn spec_subdirectory_names(&self) -> Seq<Seq<char>> {
        self.subdirectories@.map_values(|d: Directory| d.name@)
    }

    /// What [`Directory::file_exists`] answers for `file`: `None` for a path
    /// without file name, `true` for `InstallInfo.xml`, and otherwise
    /// whether the file is recorded in its directory.
    pub open spec fn spec_file_exists(&self, file: Seq<Seq<char>>) -> Option<bool> {
        if !spec_has_file_name(file) {
            None
        } else if file.last() == "InstallInfo.xml"@ {
            Some(true)
        } else {
            Some(self.spec_files_at(file.drop_last()).contains(file))
        }
    }
}

/// The subdirectory names after asking for the subdirectory `name`: it is
/// added at the end unless a subdirectory of that name is there.
pub open spec fn spec_after_create(names: Seq<Seq<char>>, name: Seq<char>) -> Seq<Seq<char>> {
    if names.contains(name) { names } else { names.push(name) }
}

proof fn lemma_child_index_bound(children: Seq<Directory>, name: Seq<char>)
    ensures
        spec_child_index(children, name) matches Some(i) ==> 0 <= i < children.len() && children[i].name@ == name,
        spec_child_index(children, name) is None ==> forall|j: int| 0 <= j < children.len() ==> children[j].name@ != name,
    decreases children.len(),
{
    if children.len() > 0 && children[0].name@ != name {
        lemma_child_index_bound(children.drop_first(), name);
        if spec_child_index(children, name) is None {
            assert forall|j: int| 0 <= j < children.len() implies children[j].name@ != name by {
                if j > 0 { assert(children.drop_first()[j - 1] == children[j]); }
            }
        }
    }
}

proof fn lemma_child_index_update(children: Seq<Directory>, i: int, c: Directory, name: Seq<char>)
    requires
        0 <= i < children.len(),
        c.name@ == children[i].name@,
    ensures
        spec_child_index(children.update(i, c), name) == spec_child_index(children, name),
    decreases children.len(),
{
    let u = children.update(i, c);
    if children[0].name@ != name && i > 0 {
        assert(u.drop_first() =~= children.drop_first().update(i - 1, c));
        lemma_child_index_update(children.drop_first(), i - 1, c, name);
    } else if i == 0 {
        assert(u.drop_first() =~= children.drop_first());
    }
}

proof fn lemma_child_index_push(children: Seq<Directory>, c: Directory, name: Seq<char>)
    ensures
        spec_child_index(children.push(c), name) == match spec_child_index(children, name) {
            Some(i) => Some(i),
            None => if c.name@ == name { Some(children.len() as int) } else { None },
        },
    decreases children.len(),
{
    let p = children.push(c);
    if children.len() > 0 {
        assert(p.drop_first() =~= children.drop_first().push(c));
        assert(p[0] == children[0]);
        lemma_child_index_push(children.drop_first(), c, name);
    } else {
        assert(p[0] == c);
        assert(p.drop_first() =~= Seq::<Directory>::empty());
        assert(spec_child_index(p.drop_first(), name) is None);
    }
}

} // verus!

verus! {

/// Replacing child `i` (named `name`) of `d` by a directory `c` of the same
/// name puts `c` below `name` and changes nothing else.
proof fn lemma_replace_child(d: Directory, i: int, c: Directory, e: Directory, name: Seq<char>)
    requires
        spec_child_index(d.subdirectories@, name) == Some(i),
        0 <= i < d.subdirectories@.len(),
        d.subdirectories@[i].name@ == name,
        e.subdirectories@ == d.subdirectories@.update(i, c),
        e.files == d.files,
    ensures
        c.name@ == name ==> forall|p: Seq<Seq<char>>|
            #![trigger e.spec_has_dir(seq![name] + p)]
            #![trigger e.spec_files_at(seq![name] + p)]
            {
            &&& e.spec_has_dir(seq![name] + p) == c.spec_has_dir(p)
            &&& e.spec_files_at(seq![name] + p) == c.spec_files_at(p)
        },
        c.name@ == name ==> forall|p: Seq<Seq<char>>|
            #![trigger e.spec_has_dir(p)]
            #![trigger e.spec_files_at(p)]
            p.len() > 0 && p[0] != name ==> {
            &&& e.spec_has_dir(p) == d.spec_has_dir(p)
            &&& e.spec_files_at(p) == d.spec_files_at(p)
        },
{
    if c.name@ != name {
        return;
    }
    assert forall|n: Seq<char>| #[trigger] spec_child_index(e.subdirectories@, n) == spec_child_index(d.subdirectories@, n) by {
        lemma_child_index_update(d.subdirectories@, i, c, n);
    }
    assert(e.subdirectories@[i] == c);
    assert forall|p: Seq<Seq<char>>| {
        &&& #[trigger] e.spec_has_dir(seq![name] + p) == c.spec_has_dir(p)
        &&& e.spec_files_at(seq![name] + p) == c.spec_files_at(p)
    } by {
        let q = seq![name] + p;
        assert(q[0] == name);
        assert(q.drop_first() =~= p);
        assert(spec_child_index(e.subdirectories@, q[0]) == Some(i));
    }
    assert forall|p: Seq<Seq<char>>| p.len() > 0 && p[0] != name implies {
        &&& #[trigger] e.spec_has_dir(p) == d.spec_has_dir(p)
        &&& e.spec_files_at(p) == d.spec_files_at(p)
    } by {
        lemma_child_index_bound(d.subdirectories@, p[0]);
        match spec_child_index(d.subdirectories@, p[0]) {
            Some(j) => {
                assert(j != i);
                assert(e.subdirectories@[j] == d.subdirectories@[j]);
            },
            None => {},
        }
    }
}

/// Replacing a child by one of the same name keeps the names.
proof fn lemma_replace_child_names(d: Directory, i: int, c: Directory)
    requires
        0 <= i < d.subdirectories@.len(),
    ensures
        forall|e: Directory| #![trigger e.spec_subdirectory_names()]
            e.subdirectories@ == d.subdirectories@.update(i, c) && c.name@ == d.subdirectories@[i].name@
            ==> e.spec_subdirectory_names() == d.spec_subdirectory_names(),
{
    assert forall|e: Directory| #![trigger e.spec_subdirectory_names()]
        e.subdirectories@ == d.subdirectories@.update(i, c) && c.name@ == d.subdirectories@[i].name@
        implies e.spec_subdirectory_names() == d.spec_subdirectory_names() by {
        assert(e.spec_subdirectory_names() =~= d.spec_subdirectory_names());
    }
}

/// [`lemma_replace_child`] for every directory `e` made that way.
proof fn lemma_replace_child_all(d: Directory, i: int, c: Directory, name: Seq<char>)
    requires
        spec_child_index(d.subdirectories@, name) == Some(i),
        0 <= i < d.subdirectories@.len(),
        d.subdirectories@[i].name@ == name,
    ensures
        forall|e: Directory, p: Seq<Seq<char>>| #![trigger e.spec_has_dir(seq![name] + p)]
            e.subdirectories@ == d.subdirectories@.update(i, c) && e.files == d.files && c.name@ == name
            ==> e.spec_has_dir(seq![name] + p) == c.spec_has_dir(p),
        forall|e: Directory, p: Seq<Seq<char>>| #![trigger e.spec_files_at(seq![name] + p)]
            e.subdirectories@ == d.subdirectories@.update(i, c) && e.files == d.files && c.name@ == name
            ==> e.spec_files_at(seq![name] + p) == c.spec_files_at(p),
        forall|e: Directory, p: Seq<Seq<char>>| #![trigger e.spec_has_dir(p)]
            e.subdirectories@ == d.subdirectories@.update(i, c) && e.files == d.files && c.name@ == name
            && p.len() > 0 && p[0] != name ==> e.spec_has_dir(p) == d.spec_has_dir(p),
        forall|e: Directory, p: Seq<Seq<char>>| #![trigger e.spec_files_at(p)]
            e.subdirectories@ == d.subdirectories@.update(i, c) && e.files == d.files && c.name@ == name
            && p.len() > 0 && p[0] != name ==> e.spec_files_at(p) == d.spec_files_at(p),
        forall|e: Directory| #![trigger e.spec_files_at(Seq::<Seq<char>>::empty())]
            e.files == d.files ==> e.spec_files_at(Seq::<Seq<char>>::empty()) == d.spec_files_at(Seq::<Seq<char>>::empty()),
{
    assert forall|e: Directory, p: Seq<Seq<char>>| #![trigger e.spec_has_dir(seq![name] + p)]
        e.subdirectories@ == d.subdirectories@.update(i, c) && e.files == d.files && c.name@ == name
        implies e.spec_has_dir(seq![name] + p) == c.spec_has_dir(p) by {
        lemma_replace_child(d, i, c, e, name);
    }
    assert forall|e: Directory, p: Seq<Seq<char>>| #![trigger e.spec_files_at(seq![name] + p)]
        e.subdirectories@ == d.subdirectories@.update(i, c) && e.files == d.files && c.name@ == name
        implies e.spec_files_at(seq![name] + p) == c.spec_files_at(p) by {
        lemma_replace_child(d, i, c, e, name);
    }
    assert forall|e: Directory, p: Seq<Seq<char>>| #![trigger e.spec_has_dir(p)]
        e.subdirectories@ == d.subdirectories@.update(i, c) && e.files == d.files && c.name@ == name
        && p.len() > 0 && p[0] != name implies e.spec_has_dir(p) == d.spec_has_dir(p) by {
        lemma_replace_child(d, i, c, e, name);
    }
    assert forall|e: Directory, p: Seq<Seq<char>>| #![trigger e.spec_files_at(p)]
        e.subdirectories@ == d.subdirectories@.update(i, c) && e.files == d.files && c.name@ == name
        && p.len() > 0 && p[0] != name implies e.spec_files_at(p) == d.spec_files_at(p) by {
        lemma_replace_child(d, i, c, e, name);
    }
    assert forall|e: Directory| #![trigger e.spec_files_at(Seq::<Seq<char>>::empty())]
        e.files == d.files implies e.spec_files_at(Seq::<Seq<char>>::empty()) == d.spec_files_at(Seq::<Seq<char>>::empty()) by {
        assert(spec_find_dir(e, Seq::<Seq<char>>::empty()) == Some(e));
        assert(spec_find_dir(d, Seq::<Seq<char>>::empty()) == Some(d));
    }
}

/// `prefix` is an initial part of `path`.
pub open spec fn spec_is_prefix(prefix: Seq<Seq<char>>, path: Seq<Seq<char>>) -> bool {
    prefix.len() <= path.len() && prefix == path.subrange(0, prefix.len() as int)
}

impl Directory {
    /// An empty directory with an empty name.
    pub fn new() -> (r: Directory)
        ensures
            r.spec_name() == Seq::<char>::empty(),
            forall|p: Seq<Seq<char>>| #[trigger] r.spec_has_dir(p) == (p.len() == 0),
            forall|p: Seq<Seq<char>>| #[trigger] r.spec_files_at(p) == Seq::<Seq<Seq<char>>>::empty(),
    {
        Directory::with_name(String::new())
    }

    /// An empty directory named `name`.
    pub fn with_name(name: String) -> (r: Directory)
        ensures
            r.spec_name() == name@,
            forall|p: Seq<Seq<char>>| #[trigger] r.spec_has_dir(p) == (p.len() == 0),
            forall|p: Seq<Seq<char>>| #[trigger] r.spec_files_at(p) == Seq::<Seq<Seq<char>>>::empty(),
    {
        let r = Directory { name, subdirectories: Vec::new(), files: Vec::new() };
        proof {
            assert forall|p: Seq<Seq<char>>| #[trigger] r.spec_has_dir(p) == (p.len() == 0) by {
                if p.len() > 0 { assert(spec_child_index(r.subdirectories@, p[0]) is None); }
            }
            assert forall|p: Seq<Seq<char>>| #[trigger] r.spec_files_at(p) == Seq::<Seq<Seq<char>>>::empty() by {
                if p.len() > 0 { assert(spec_child_index(r.subdirectories@, p[0]) is None); }
                else { assert(r.files.deep_view() =~= Seq::<Seq<Seq<char>>>::empty()); }
            }
        }
        r
    }

    fn child_index(&self, name: &String) -> (r: Option<usize>)
        ensures
            match r {
                Some(i) => spec_child_index(self.subdirectories@, name@) == Some(i as int),
                None => spec_child_index(self.subdirectories@, name@) is None,
            },
    {
        let mut i: usize = 0;
        assert(self.subdirectories@.subrange(0, self.subdirectories@.len() as int) =~= self.subdirectories@);
        while i < self.subdirectories.len()
            invariant
                i <= self.subdirectories@.len(),
                spec_child_index(self.subdirectories@, name@) == match spec_child_index(self.subdirectories@.subrange(i as int, self.subdirectories@.len() as int), name@) {
                    Some(k) => Some(k + i),
                    None => None,
                },
            decreases self.subdirectories.len() - i,
        {
            let ghost rest = self.subdirectories@.subrange(i as int, self.subdirectories@.len() as int);
            assert(rest[0] == self.subdirectories@[i as int]);
            if self.subdirectories[i].name == *name {
                return Some(i);
            }
            assert(rest.drop_first() =~= self.subdirectories@.subrange(i + 1, self.subdirectories@.len() as int));
            i = i + 1;
        }
        proof {
            assert(self.subdirectories@.subrange(i as int, self.subdirectories@.len() as int) =~= Seq::<Directory>::empty());
        }
        None
    }

    /// The subdirectory named `name`, if there is one.
    pub fn get_subdirectory(&self, name: &String) -> (r: Option<&Directory>)
        ensures
            r is None <==> !self.spec_has_dir(seq![name@]),
            r matches Some(d) ==> forall|p: Seq<Seq<char>>| {
                &&& #[trigger] d.spec_has_dir(p) == self.spec_has_dir(seq![name@] + p)
                &&& d.spec_files_at(p) == self.spec_files_at(seq![name@] + p)
            },
    {
        proof { lemma_child_index_bound(self.subdirectories@, name@); }
        match self.child_index(name) {
            None => {
                proof {
                    let q1 = seq![name@];
                    assert(q1[0] == name@);
                    assert(spec_child_index(self.subdirectories@, q1[0]) is None);
                }
                None
            },
            Some(i) => {
                let d = &self.subdirectories[i];
                proof {
                    assert forall|p: Seq<Seq<char>>| {
                        &&& #[trigger] d.spec_has_dir(p) == self.spec_has_dir(seq![name@] + p)
                        &&& d.spec_files_at(p) == self.spec_files_at(seq![name@] + p)
                    } by {
                        let q = seq![name@] + p;
                        assert(q[0] == name@);
                        assert(q.drop_first() =~= p);
                    }
                    let q1 = seq![name@];
                    assert(q1[0] == name@);
                    assert(q1.drop_first() =~= Seq::<Seq<char>>::empty());
                    assert(spec_find_dir(*d, q1.drop_first()) is Some);
                }
                Some(d)
            },
        }
    }
}

} // verus!

verus! {

/// Whether two component lists are equal.
pub fn components_eq(a: &Vec<String>, b: &Vec<String>) -> (r: bool)
    ensures
        r == (a.deep_view() == b.deep_view()),
{
    if a.len() != b.len() {
        proof { assert(a.deep_view().len() != b.deep_view().len()); }
        return false;
    }
    let mut i: usize = 0;
    while i < a.len()
        invariant
            a@.len() == b@.len(),
            i <= a@.len(),
            forall|k: int| 0 <= k < i ==> a@[k]@ == b@[k]@,
        decreases a.len() - i,
    {
        if a[i] != b[i] {
            proof { assert(a.deep_view()[i as int] != b.deep_view()[i as int]); }
            return false;
        }
        i = i + 1;
    }
    proof { assert(a.deep_view() =~= b.deep_view()); }
    true
}

proof fn lemma_has_dir_first(d: Directory, q: Seq<Seq<char>>)
    requires
        q.len() > 0,
        d.spec_has_dir(q),
    ensures
        d.spec_has_dir(seq![q[0]]),
{
    let q1 = seq![q[0]];
    assert(q1[0] == q[0]);
    assert(q1.drop_first() =~= Seq::<Seq<char>>::empty());
    let i = spec_child_index(d.subdirectories@, q[0])->0;
    assert(spec_find_dir(d.subdirectories@[i], q1.drop_first()) is Some);
}

impl Directory {
    /// Follows `path` from this directory: the directory reached, if each step exists.
    fn walk(&self, path: &Vec<String>, len: usize) -> (r: Option<&Directory>)
        requires
            len <= path@.len(),
        ensures
            r is None <==> !self.spec_has_dir(path.deep_view().subrange(0, len as int)),
            r matches Some(d) ==> forall|p: Seq<Seq<char>>| {
                &&& #[trigger] d.spec_has_dir(p) == self.spec_has_dir(path.deep_view().subrange(0, len as int) + p)
                &&& d.spec_files_at(p) == self.spec_files_at(path.deep_view().subrange(0, len as int) + p)
            },
    {
        let ghost pv = path.deep_view();
        let mut temp = self;
        let mut i: usize = 0;
        proof {
            assert forall|p: Seq<Seq<char>>| #[trigger] temp.spec_has_dir(p) == self.spec_has_dir(pv.subrange(0, 0) + p)
                && temp.spec_files_at(p) == self.spec_files_at(pv.subrange(0, 0) + p) by {
                assert(pv.subrange(0, 0) + p =~= p);
            }
        }
        while i < len
            invariant
                len <= path@.len(),
                pv == path.deep_view(),
                i <= len,
                forall|p: Seq<Seq<char>>| {
                    &&& #[trigger] temp.spec_has_dir(p) == self.spec_has_dir(pv.subrange(0, i as int) + p)
                    &&& temp.spec_files_at(p) == self.spec_files_at(pv.subrange(0, i as int) + p)
                },
                self.spec_has_dir(pv.subrange(0, i as int)),
            decreases len - i,
        {
            let ghost prefix = pv.subrange(0, i as int);
            assert(path@[i as int]@ == pv[i as int]);
            match temp.get_subdirectory(&path[i]) {
                None => {
                    proof {
                        if self.spec_has_dir(pv.subrange(0, len as int)) {
                            let rest = pv.subrange(i as int, len as int);
                            assert(pv.subrange(0, len as int) =~= prefix + rest);
                            assert(temp.spec_has_dir(rest));
                            lemma_has_dir_first(*temp, rest);
                            assert(seq![rest[0]] =~= seq![pv[i as int]]);
                        }
                    }
                    return None;
                },
                Some(sub) => {
                    proof {
                        assert forall|p: Seq<Seq<char>>| {
                            &&& #[trigger] sub.spec_has_dir(p) == self.spec_has_dir(pv.subrange(0, i + 1) + p)
                            &&& sub.spec_files_at(p) == self.spec_files_at(pv.subrange(0, i + 1) + p)
                        } by {
                            let q = seq![pv[i as int]] + p;
                            assert(sub.spec_has_dir(p) == temp.spec_has_dir(seq![path@[i as int]@] + p));
                            assert(sub.spec_files_at(p) == temp.spec_files_at(seq![path@[i as int]@] + p));
                            assert(seq![path@[i as int]@] + p == q);
                            assert(temp.spec_has_dir(q) == self.spec_has_dir(prefix + q));
                            assert(temp.spec_files_at(q) == self.spec_files_at(prefix + q));
                            assert(prefix + q =~= pv.subrange(0, i + 1) + p);
                        }
                        assert(sub.spec_has_dir(Seq::<Seq<char>>::empty()) == self.spec_has_dir(pv.subrange(0, i + 1) + Seq::<Seq<char>>::empty()));
                        assert(pv.subrange(0, i + 1) + Seq::<Seq<char>>::empty() =~= pv.subrange(0, i + 1));
                        assert(spec_find_dir(*sub, Seq::<Seq<char>>::empty()) is Some);
                    }
                    temp = sub;
                },
            }
            i = i + 1;
        }
        Some(temp)
    }

    /// The subdirectory named `name`, created empty if there is none. While
    /// the caller keeps its name, what it does to the subdirectory is what
    /// this directory holds below `name`, and nothing else changes.
    pub fn get_or_create_subdirectory(&mut self, name: String) -> (r: &mut Directory)
        ensures
            (*r).spec_name() == name@,
            old(self).spec_has_dir(seq![name@]) ==> forall|p: Seq<Seq<char>>| {
                &&& #[trigger] (*r).spec_has_dir(p) == old(self).spec_has_dir(seq![name@] + p)
                &&& (*r).spec_files_at(p) == old(self).spec_files_at(seq![name@] + p)
            },
            !old(self).spec_has_dir(seq![name@]) ==> forall|p: Seq<Seq<char>>| {
                &&& #[trigger] (*r).spec_has_dir(p) == (p.len() == 0)
                &&& (*r).spec_files_at(p) == Seq::<Seq<Seq<char>>>::empty()
            },
            final(self).spec_name() == old(self).spec_name(),
            final(self).spec_files_at(Seq::<Seq<char>>::empty()) == old(self).spec_files_at(Seq::<Seq<char>>::empty()),
            final(r).spec_name() == name@ ==> final(self).spec_subdirectory_names()
                == spec_after_create(old(self).spec_subdirectory_names(), name@),
            final(r).spec_name() == name@ ==> {
                &&& forall|p: Seq<Seq<char>>| {
                    &&& #[trigger] final(self).spec_has_dir(seq![name@] + p) == final(r).spec_has_dir(p)
                    &&& final(self).spec_files_at(seq![name@] + p) == final(r).spec_files_at(p)
                }
                &&& forall|p: Seq<Seq<char>>| p.len() > 0 && p[0] != name@ ==> {
                    &&& #[trigger] final(self).spec_has_dir(p) == old(self).spec_has_dir(p)
                    &&& final(self).spec_files_at(p) == old(self).spec_files_at(p)
                }
            },
    {
        let ghost old_self = *self;
        proof { lemma_child_index_bound(self.subdirectories@, name@); }
        let existed = self.child_index(&name);
        let i = match existed {
            Some(i) => i,
            None => {
                let c = Directory::with_name(name);
                let ghost subs = self.subdirectories@;
                proof { lemma_child_index_push(subs, c, c.name@); }
                self.subdirectories.push(c);
                proof {
                    assert forall|n: Seq<char>| n != c.name@ implies
                        #[trigger] spec_child_index(self.subdirectories@, n) == spec_child_index(subs, n) by {
                        lemma_child_index_push(subs, c, n);
                    }
                }
                self.subdirectories.len() - 1
            },
        };
        let ghost mid = *self;
        proof {
            lemma_child_index_bound(mid.subdirectories@, name@);
            let q1 = seq![name@];
            assert(q1[0] == name@);
            assert(q1.drop_first() =~= Seq::<Seq<char>>::empty());
            assert(spec_find_dir(mid.subdirectories@[i as int], q1.drop_first()) is Some);
            match existed {
                Some(_) => {
                    assert(mid == old_self);
                    assert(old_self.spec_has_dir(q1));
                },
                None => {
                    assert(spec_child_index(old_self.subdirectories@, q1[0]) is None);
                    assert(!old_self.spec_has_dir(q1));
                    assert forall|p: Seq<Seq<char>>| p.len() > 0 && p[0] != name@ implies {
                        &&& #[trigger] mid.spec_has_dir(p) == old_self.spec_has_dir(p)
                        &&& mid.spec_files_at(p) == old_self.spec_files_at(p)
                    } by {
                        assert(spec_child_index(mid.subdirectories@, p[0]) == spec_child_index(old_self.subdirectories@, p[0]));
                        lemma_child_index_bound(old_self.subdirectories@, p[0]);
                        match spec_child_index(old_self.subdirectories@, p[0]) {
                            Some(j) => { assert(mid.subdirectories@[j] == old_self.subdirectories@[j]); },
                            None => {},
                        }
                    }
                    assert(mid.spec_files_at(Seq::<Seq<char>>::empty()) == old_self.spec_files_at(Seq::<Seq<char>>::empty())) by {
                        assert(spec_find_dir(mid, Seq::<Seq<char>>::empty()) == Some(mid));
                        assert(spec_find_dir(old_self, Seq::<Seq<char>>::empty()) == Some(old_self));
                    }
                },
            }
            assert forall|p: Seq<Seq<char>>| old_self.spec_has_dir(seq![name@]) implies {
                &&& #[trigger] mid.subdirectories@[i as int].spec_has_dir(p) == old_self.spec_has_dir(seq![name@] + p)
                &&& mid.subdirectories@[i as int].spec_files_at(p) == old_self.spec_files_at(seq![name@] + p)
            } by {
                let q = seq![name@] + p;
                assert(q[0] == name@);
                assert(q.drop_first() =~= p);
            }
        }
        proof {
            let names = old_self.spec_subdirectory_names();
            match existed {
                Some(_) => {
                    assert(names[i as int] == name@);
                    assert(names.contains(name@));
                    assert(spec_after_create(names, name@) == mid.spec_subdirectory_names());
                },
                None => {
                    if names.contains(name@) {
                        let j = choose|j: int| 0 <= j < names.len() && names[j] == name@;
                        assert(old_self.subdirectories@[j].name@ == name@);
                    }
                    assert(mid.spec_subdirectory_names() =~= names.push(name@));
                },
            }
        }
        let r = &mut self.subdirectories[i];
        proof {
            assert(*r == mid.subdirectories@[i as int]);
            lemma_replace_child_all(mid, i as int, *final(r), name@);
            lemma_replace_child_names(mid, i as int, *final(r));
        }
        r
    }

    /// Whether the directory at `path` exists below this one.
    pub fn directory_exists(&self, path: &Vec<String>) -> (r: bool)
        ensures
            r == self.spec_has_dir(path.deep_view()),
    {
        let r = self.walk(path, path.len());
        proof { assert(path.deep_view().subrange(0, path@.len() as int) =~= path.deep_view()); }
        r.is_some()
    }
}

} // verus!

verus! {

/// A path has a file name when its last component is a normal one
/// (not the root `/`, `.` or `..`).
pub open spec fn spec_has_file_name(file: Seq<Seq<char>>) -> bool {
    &&& file.len() > 0
    &&& file.last() != seq!['/']
    &&& file.last() != seq!['.']
    &&& file.last() != seq!['.', '.']
}

impl Directory {
    /// Whether `file` (its components, relative to this directory) is a
    /// versioned file. `InstallInfo.xml` always counts as versioned; a path
    /// without file name is an error.
    pub fn file_exists(&self, file: &Vec<String>) -> (r: Result<bool, Error>)
        ensures
            match self.spec_file_exists(file.deep_view()) {
                Some(b) => r == Ok::<bool, Error>(b),
                None => r matches Err(Error::Message(_)),
            },
    {
        proof { reveal_strlit("/"); reveal_strlit("."); reveal_strlit(".."); }
        let ghost fv = file.deep_view();
        let n = file.len();
        if n == 0 {
            return Err(Error::Message(crate::text::owned("FileName of an empty path is None")));
        }
        let last = &file[n - 1];
        assert(last@ == fv.last());
        let root = crate::text::owned("/");
        let dot = crate::text::owned(".");
        let dotdot = crate::text::owned("..");
        assert(root@ =~= seq!['/'] && dot@ =~= seq!['.'] && dotdot@ =~= seq!['.', '.']);
        if *last == root || *last == dot || *last == dotdot {
            return Err(Error::Message(crate::text::concat(&crate::text::owned("FileName of a path ending in "), last.as_str())));
        }
        if *last == crate::text::owned("InstallInfo.xml") {
            return Ok(true);
        }
        proof { assert(fv.subrange(0, n - 1) =~= fv.drop_last()); }
        match self.walk(file, n - 1) {
            None => {
                proof {
                    assert(spec_find_dir(*self, fv.drop_last()) is None);
                    assert(self.spec_files_at(fv.drop_last()) =~= Seq::<Seq<Seq<char>>>::empty());
                }
                Ok(false)
            },
            Some(d) => {
                proof {
                    assert(d.spec_has_dir(Seq::<Seq<char>>::empty()) == self.spec_has_dir(fv.drop_last() + Seq::<Seq<char>>::empty()));
                    assert(d.spec_files_at(Seq::<Seq<char>>::empty()) == self.spec_files_at(fv.drop_last() + Seq::<Seq<char>>::empty()));
                    assert(fv.drop_last() + Seq::<Seq<char>>::empty() =~= fv.drop_last());
                    assert(d.spec_files_at(Seq::<Seq<char>>::empty()) == d.files.deep_view());
                }
                let mut i: usize = 0;
                while i < d.files.len()
                    invariant
                        i <= d.files@.len(),
                        fv == file.deep_view(),
                        spec_has_file_name(fv),
                        fv.last() != "InstallInfo.xml"@,
                        d.files.deep_view() == self.spec_files_at(fv.drop_last()),
                        forall|k: int| 0 <= k < i ==> d.files.deep_view()[k] != fv,
                    decreases d.files.len() - i,
                {
                    if components_eq(&d.files[i], file) {
                        proof { assert(d.files.deep_view()[i as int] == fv); }
                        return Ok(true);
                    }
                    i = i + 1;
                }
                Ok(false)
            },
        }
    }
}

} // verus!

verus! {

impl Directory {
    /// Makes the directories `dirs[start..]` exist below this one (creating
    /// what is missing) and, with a file, records it in the last of them.
    fn insert(&mut self, dirs: &Vec<String>, start: usize, file: Option<&Vec<String>>)
        requires
            start <= dirs@.len(),
        ensures
            final(self).spec_name() == old(self).spec_name(),
            forall|q: Seq<Seq<char>>| #[trigger] final(self).spec_has_dir(q)
                == (old(self).spec_has_dir(q) || spec_is_prefix(q, dirs.deep_view().subrange(start as int, dirs@.len() as int))),
            forall|q: Seq<Seq<char>>| #[trigger] final(self).spec_files_at(q) == match file {
                Some(f) => if q == dirs.deep_view().subrange(start as int, dirs@.len() as int) {
                    old(self).spec_files_at(q).push(f.deep_view())
                } else {
                    old(self).spec_files_at(q)
                },
                None => old(self).spec_files_at(q),
            },
        decreases dirs@.len() - start,
    {
        let ghost d = dirs.deep_view().subrange(start as int, dirs@.len() as int);
        let ghost old_self = *self;
        if start == dirs.len() {
            match file {
                Some(f) => {
                    let ghost fs = self.files.deep_view();
                    let c = crate::mirrors::copy_strings(f);
                    self.files.push(c);
                    proof { assert(self.files.deep_view() =~= fs.push(c.deep_view())); }
                },
                None => {},
            }
            proof {
                assert(d =~= Seq::<Seq<char>>::empty());
                assert forall|q: Seq<Seq<char>>| #[trigger] self.spec_has_dir(q) == (old_self.spec_has_dir(q) || spec_is_prefix(q, d)) by {
                    if q.len() > 0 { assert(self.subdirectories@ == old_self.subdirectories@); }
                }
                assert forall|q: Seq<Seq<char>>| #[trigger] self.spec_files_at(q) == match file {
                    Some(f) => if q == d { old_self.spec_files_at(q).push(f.deep_view()) } else { old_self.spec_files_at(q) },
                    None => old_self.spec_files_at(q),
                } by {
                    if q.len() > 0 { assert(self.subdirectories@ == old_self.subdirectories@); }
                    else { assert(q =~= d); }
                }
            }
            return;
        }
        let name = &dirs[start];
        assert(name@ == d[0]);
        proof { lemma_child_index_bound(self.subdirectories@, name@); }
        let existed = self.child_index(name);
        let i = match existed {
            Some(i) => i,
            None => {
                let c = Directory::with_name(name.clone());
                let ghost subs = self.subdirectories@;
                proof { lemma_child_index_push(subs, c, name@); }
                self.subdirectories.push(c);
                proof {
                    assert forall|n: Seq<char>| n != name@ implies
                        #[trigger] spec_child_index(self.subdirectories@, n) == spec_child_index(subs, n) by {
                        lemma_child_index_push(subs, c, n);
                    }
                }
                self.subdirectories.len() - 1
            },
        };
        let ghost mid = *self;
        let mut child = self.subdirectories.remove(i);
        let ghost old_child = child;
        child.insert(dirs, start + 1, file);
        let ghost subs_mid = mid.subdirectories@;
        self.subdirectories.insert(i, child);
        proof {
            assert(self.subdirectories@ =~= subs_mid.update(i as int, child));
            let dr = dirs.deep_view().subrange(start + 1, dirs@.len() as int);
            assert(d.drop_first() =~= dr);
            assert forall|n: Seq<char>| #[trigger] spec_child_index(self.subdirectories@, n) == spec_child_index(subs_mid, n) by {
                lemma_child_index_update(subs_mid, i as int, child, n);
            }
            assert forall|q: Seq<Seq<char>>| #[trigger] self.spec_has_dir(q) == (old_self.spec_has_dir(q) || spec_is_prefix(q, d)) by {
                if q.len() > 0 {
                    if q[0] == name@ {
                        assert(spec_child_index(self.subdirectories@, q[0]) == Some(i as int));
                        assert(child.spec_has_dir(q.drop_first()) == (old_child.spec_has_dir(q.drop_first()) || spec_is_prefix(q.drop_first(), dr)));
                        assert(spec_is_prefix(q, d) == spec_is_prefix(q.drop_first(), dr)) by {
                            if spec_is_prefix(q.drop_first(), dr) {
                                assert(q[0] == d[0]);
                                assert forall|k: int| 0 <= k < q.len() implies q[k] == d.subrange(0, q.len() as int)[k] by {
                                    if k > 0 {
                                        assert(q[k] == q.drop_first()[k - 1]);
                                        assert(q.drop_first()[k - 1] == dr.subrange(0, q.len() - 1)[k - 1]);
                                    }
                                }
                                assert(q =~= d.subrange(0, q.len() as int));
                            }
                            if spec_is_prefix(q, d) {
                                assert(q.drop_first() =~= dr.subrange(0, q.len() - 1));
                            }
                        }
                        match existed {
                            Some(_) => {},
                            None => {
                                assert(old_child.spec_has_dir(q.drop_first()) == (q.drop_first().len() == 0));
                                assert(spec_child_index(old_self.subdirectories@, q[0]) is None);
                                if q.drop_first().len() == 0 { assert(q.drop_first() =~= dr.subrange(0, 0)); }
                            },
                        }
                    } else {
                        assert(!spec_is_prefix(q, d)) by { if spec_is_prefix(q, d) { assert(q[0] == d[0]); } }
                        assert(spec_child_index(subs_mid, q[0]) == spec_child_index(old_self.subdirectories@, q[0]));
                        lemma_child_index_bound(old_self.subdirectories@, q[0]);
                        match spec_child_index(old_self.subdirectories@, q[0]) {
                            Some(j) => {
                                assert(j != i);
                                assert(self.subdirectories@[j] == old_self.subdirectories@[j]);
                            },
                            None => {},
                        }
                    }
                } else {
                    assert(spec_is_prefix(q, d)) by { assert(q =~= d.subrange(0, 0)); }
                }
            }
            assert forall|q: Seq<Seq<char>>| #[trigger] self.spec_files_at(q) == match file {
                Some(f) => if q == d { old_self.spec_files_at(q).push(f.deep_view()) } else { old_self.spec_files_at(q) },
                None => old_self.spec_files_at(q),
            } by {
                if q.len() > 0 {
                    if q[0] == name@ {
                        assert(spec_child_index(self.subdirectories@, q[0]) == Some(i as int));
                        assert(child.spec_files_at(q.drop_first()) == match file {
                            Some(f) => if q.drop_first() == dr { old_child.spec_files_at(q.drop_first()).push(f.deep_view()) }
                                else { old_child.spec_files_at(q.drop_first()) },
                            None => old_child.spec_files_at(q.drop_first()),
                        });
                        assert((q == d) == (q.drop_first() == dr)) by {
                            if q.drop_first() == dr {
                                assert(q[0] == d[0]);
                                assert forall|k: int| 0 <= k < q.len() implies q[k] == d[k] by {
                                    if k > 0 { assert(q[k] == q.drop_first()[k - 1]); }
                                }
                                assert(q =~= d);
                            }
                            if q == d { assert(q.drop_first() =~= dr); }
                        }
                        match existed {
                            Some(_) => {},
                            None => {
                                assert(old_child.spec_files_at(q.drop_first()) == Seq::<Seq<Seq<char>>>::empty());
                                assert(spec_child_index(old_self.subdirectories@, q[0]) is None);
                            },
                        }
                    } else {
                        assert(q != d) by { if q == d { assert(q[0] == d[0]); } }
                        assert(spec_child_index(subs_mid, q[0]) == spec_child_index(old_self.subdirectories@, q[0]));
                        lemma_child_index_bound(old_self.subdirectories@, q[0]);
                        match spec_child_index(old_self.subdirectories@, q[0]) {
                            Some(j) => {
                                assert(j != i);
                                assert(self.subdirectories@[j] == old_self.subdirectories@[j]);
                            },
                            None => {},
                        }
                    }
                } else {
                    assert(q != d);
                    assert(self.files == old_self.files);
                }
            }
        }
    }
}

} // verus!

verus! {

/// The components of an instruction's path relative to the installation root.
pub open spec fn spec_relative(root: Seq<Seq<char>>, path: Seq<char>) -> Seq<Seq<char>> {
    let c = crate::paths::spec_components(path);
    c.subrange(root.len() as int, c.len() as int)
}

/// The directory part of a relative path: all but its last component.
pub open spec fn spec_dirs_of(rel: Seq<Seq<char>>) -> Seq<Seq<char>> {
    if rel.len() > 0 { rel.drop_last() } else { rel }
}

/// Every instruction's path lies below the root.
pub open spec fn spec_under_root(instructions: Seq<InstructionView>, root: Seq<Seq<char>>) -> bool {
    forall|k: int| 0 <= k < instructions.len()
        ==> spec_is_prefix(root, crate::paths::spec_components(#[trigger] instructions[k].path))
}

/// Whether `q` is a directory the instructions version: the root, or a prefix
/// of the directory of some instruction's file.
pub open spec fn spec_versioned_dir(instructions: Seq<InstructionView>, root: Seq<Seq<char>>, q: Seq<Seq<char>>) -> bool
    decreases instructions.len(),
{
    if instructions.len() == 0 {
        q.len() == 0
    } else {
        spec_versioned_dir(instructions.drop_last(), root, q)
            || spec_is_prefix(q, spec_dirs_of(spec_relative(root, instructions.last().path)))
    }
}

/// The files the instructions keep in directory `q`, in order: the relative
/// paths of the instructions with a newest hash whose directory is `q`.
pub open spec fn spec_versioned_files_at(instructions: Seq<InstructionView>, root: Seq<Seq<char>>, q: Seq<Seq<char>>)
    -> Seq<Seq<Seq<char>>>
    decreases instructions.len(),
{
    if instructions.len() == 0 {
        seq![]
    } else {
        let before = spec_versioned_files_at(instructions.drop_last(), root, q);
        let i = instructions.last();
        let rel = spec_relative(root, i.path);
        if i.newest_hash is Some && spec_dirs_of(rel) == q { before.push(rel) } else { before }
    }
}

/// `d` holds exactly the directories and files that the instructions version.
pub open spec fn spec_versioned_tree(d: Directory, instructions: Seq<InstructionView>, root: Seq<Seq<char>>) -> bool {
    &&& forall|q: Seq<Seq<char>>| #[trigger] d.spec_has_dir(q) == spec_versioned_dir(instructions, root, q)
    &&& forall|q: Seq<Seq<char>>| #[trigger] d.spec_files_at(q) == spec_versioned_files_at(instructions, root, q)
}

/// Whether `prefix` is an initial part of `path`.
pub fn is_prefix(prefix: &Vec<String>, path: &Vec<String>) -> (r: bool)
    ensures
        r == spec_is_prefix(prefix.deep_view(), path.deep_view()),
{
    if prefix.len() > path.len() {
        return false;
    }
    let mut i: usize = 0;
    while i < prefix.len()
        invariant
            prefix@.len() <= path@.len(),
            i <= prefix@.len(),
            forall|k: int| 0 <= k < i ==> prefix@[k]@ == path@[k]@,
        decreases prefix.len() - i,
    {
        if prefix[i] != path[i] {
            proof {
                assert(prefix.deep_view()[i as int] != path.deep_view().subrange(0, prefix@.len() as int)[i as int]);
            }
            return false;
        }
        i = i + 1;
    }
    proof { assert(prefix.deep_view() =~= path.deep_view().subrange(0, prefix@.len() as int)); }
    true
}

/// Some instruction with a newest hash has the relative path `f`.
pub open spec fn spec_kept(instructions: Seq<InstructionView>, root: Seq<Seq<char>>, f: Seq<Seq<char>>) -> bool {
    exists|k: int| {
        &&& 0 <= k < instructions.len()
        &&& (#[trigger] instructions[k]).newest_hash is Some
        &&& spec_relative(root, instructions[k].path) == f
    }
}

/// The tree answers the queries on it as the instructions version the files:
/// the directory of a kept file exists and `file_exists` says `true` for
/// it; for any other file (but `InstallInfo.xml`) it says `false`.
pub open spec fn spec_tree_answers(d: Directory, instructions: Seq<InstructionView>, root: Seq<Seq<char>>) -> bool {
    &&& forall|f: Seq<Seq<char>>| spec_has_file_name(f) && spec_kept(instructions, root, f)
        ==> d.spec_has_dir(f.drop_last()) && #[trigger] d.spec_file_exists(f) == Some(true)
    &&& forall|f: Seq<Seq<char>>| spec_has_file_name(f) && f.last() != "InstallInfo.xml"@
        && !spec_kept(instructions, root, f) ==> #[trigger] d.spec_file_exists(f) == Some(false)
}

/// Builds the tree of the directories and files that `instructions` version,
/// relative to `renegadex_path`: every directory on the way to an
/// instruction's file, and the files that have a newest hash. An instruction
/// outside `renegadex_path` is `StripPrefix`.
pub fn instructions_to_directory_info(instructions: &Vec<Instruction>, renegadex_path: &String)
    -> (r: Result<Directory, Error>)
    ensures
        !spec_under_root(instructions@.map_values(|i: Instruction| i@), crate::paths::spec_components(renegadex_path@))
            ==> r matches Err(Error::StripPrefix()),
        spec_under_root(instructions@.map_values(|i: Instruction| i@), crate::paths::spec_components(renegadex_path@))
            ==> (r matches Ok(d) && spec_versioned_tree(d, instructions@.map_values(|i: Instruction| i@),
                crate::paths::spec_components(renegadex_path@))),
        r matches Ok(d) ==> spec_tree_answers(d, instructions@.map_values(|i: Instruction| i@),
            crate::paths::spec_components(renegadex_path@)),
{
    let ghost iv = instructions@.map_values(|i: Instruction| i@);
    let root = crate::paths::components(renegadex_path.as_str());
    let ghost rv = root.deep_view();
    let mut tree = Directory::new();
    let mut k: usize = 0;
    while k < instructions.len()
        invariant
            k <= instructions@.len(),
            iv == instructions@.map_values(|i: Instruction| i@),
            rv == root.deep_view(),
            rv == crate::paths::spec_components(renegadex_path@),
            spec_under_root(iv.subrange(0, k as int), rv),
            forall|q: Seq<Seq<char>>| #[trigger] tree.spec_has_dir(q) == spec_versioned_dir(iv.subrange(0, k as int), rv, q),
            forall|q: Seq<Seq<char>>| #[trigger] tree.spec_files_at(q) == spec_versioned_files_at(iv.subrange(0, k as int), rv, q),
        decreases instructions.len() - k,
    {
        let entry = &instructions[k];
        let comps = crate::paths::components(entry.path.as_str());
        if !is_prefix(&root, &comps) {
            proof {
                assert(iv[k as int] == entry@);
                assert(!spec_is_prefix(rv, crate::paths::spec_components(iv[k as int].path)));
            }
            return Err(Error::StripPrefix());
        }
        let mut rel: Vec<String> = Vec::new();
        let mut j = root.len();
        while j < comps.len()
            invariant
                root@.len() <= j <= comps@.len(),
                rel.deep_view() == comps.deep_view().subrange(root@.len() as int, j as int),
            decreases comps.len() - j,
        {
            let ghost before = rel.deep_view();
            let c = comps[j].clone();
            rel.push(c);
            proof {
                assert(rel.deep_view() =~= before.push(c@));
                assert(rel.deep_view() =~= comps.deep_view().subrange(root@.len() as int, j + 1));
            }
            j = j + 1;
        }
        let mut dirs = crate::mirrors::copy_strings(&rel);
        if dirs.len() > 0 {
            let ghost dv = dirs.deep_view();
            dirs.pop();
            proof { assert(dirs.deep_view() =~= dv.drop_last()); }
        }
        let ghost before_tree = tree;
        if entry.newest_hash.is_some() {
            tree.insert(&dirs, 0, Some(&rel));
        } else {
            tree.insert(&dirs, 0, None);
        }
        proof {
            let next = iv.subrange(0, k + 1);
            assert(next.drop_last() =~= iv.subrange(0, k as int));
            assert(next.last() == entry@);
            assert(dirs.deep_view().subrange(0, dirs@.len() as int) =~= dirs.deep_view());
            assert(rel.deep_view() == spec_relative(rv, entry@.path));
            assert(dirs.deep_view() == spec_dirs_of(spec_relative(rv, entry@.path)));
            assert(spec_under_root(next, rv)) by {
                assert forall|m: int| 0 <= m < next.len() implies
                    spec_is_prefix(rv, crate::paths::spec_components(#[trigger] next[m].path)) by {
                    if m < k { assert(next[m] == iv.subrange(0, k as int)[m]); }
                }
            }
        }
        k = k + 1;
    }
    proof {
        assert(iv.subrange(0, instructions@.len() as int) =~= iv);
        crate::laws::law_directory_tree_answers_queries(tree, iv, rv);
    }
    Ok(tree)
}

} // verus!
