use vstd::prelude::*;

use crate::classmap::strings_view;
use crate::error::Error;
use crate::text::{str_equal, to_owned_string};

verus! {

/// Vectors of strings as sequences of character sequences.
pub open spec fn nested_view(v: Seq<Vec<String>>) -> Seq<Seq<Seq<char>>> {
    v.map_values(|l: Vec<String>| strings_view(l@))
}

/// Whether `x` occurs in one of the first `k` levels.
pub open spec fn in_levels(levels: Seq<Seq<Seq<char>>>, k: int, x: Seq<char>) -> bool {
    exists|j: int| 0 <= j < k && #[trigger] levels[j].contains(x)
}

/// The number of `true` entries of `s`.
pub open spec fn count_true(s: Seq<bool>) -> nat
    decreases s.len(),
{
    if s.len() == 0 {
        0
    } else {
        count_true(s.drop_last()) + if s.last() {
            1nat
        } else {
            0nat
        }
    }
}

/// At most every entry is `true`.
pub proof fn lemma_count_true_bound(s: Seq<bool>)
    ensures
        count_true(s) <= s.len(),
    decreases s.len(),
{
    if s.len() > 0 {
        lemma_count_true_bound(s.drop_last());
    }
}

/// Setting a `false` entry to `true` adds one to the count.
pub proof fn lemma_count_true_set(s: Seq<bool>, i: int)
    requires
        0 <= i < s.len(),
        !s[i],
    ensures
        count_true(s.update(i, true)) == count_true(s) + 1,
    decreases s.len(),
{
    let t = s.update(i, true);
    if i == s.len() - 1 {
        assert(t.drop_last() =~= s.drop_last());
    } else {
        assert(t.drop_last() =~= s.drop_last().update(i, true));
        lemma_count_true_set(s.drop_last(), i);
    }
}

/// The modules of a workspace, each with its directory and the names of the modules it
/// depends on.  Module names are unique.
pub struct ModuleGraph {
    names: Vec<String>,
    dirs: Vec<String>,
    deps: Vec<Vec<String>>,
}

/// The names of the modules given as (name, directory, dependencies).
pub open spec fn module_names_of(ms: Seq<(String, String, Vec<String>)>) -> Seq<Seq<char>> {
    ms.map_values(|m: (String, String, Vec<String>)| m.0@)
}

/// The directories of the modules given as (name, directory, dependencies).
pub open spec fn module_dirs_of(ms: Seq<(String, String, Vec<String>)>) -> Seq<Seq<char>> {
    ms.map_values(|m: (String, String, Vec<String>)| m.1@)
}

/// The dependency lists of the modules given as (name, directory, dependencies).
pub open spec fn module_deps_of(ms: Seq<(String, String, Vec<String>)>) -> Seq<Seq<Seq<char>>> {
    ms.map_values(|m: (String, String, Vec<String>)| strings_view(m.2@))
}

/// Whether `msg` is the error for the first module of `ms` whose name repeats an earlier
/// one: the module at `k`, where the names before it are distinct and the one at `j < k`
/// has the same name; the message names both directories.
pub open spec fn first_repeat_message(ms: Seq<(String, String, Vec<String>)>, msg: Seq<char>) -> bool {
    exists|j: int, k: int|
        0 <= j < k < ms.len() && module_names_of(ms).take(k).no_duplicates()
            && #[trigger] ms[j].0@ == #[trigger] ms[k].0@
            && msg == "duplicate module name '"@ + ms[k].0@ + "': "@ + ms[j].1@ + " and "@ + ms[k].1@
}

impl ModuleGraph {
    /// The module names, in the order the modules were added.
    pub closed spec fn spec_names(&self) -> Seq<Seq<char>> {
        strings_view(self.names@)
    }

    /// The module directories, in the same order.
    pub closed spec fn spec_dirs(&self) -> Seq<Seq<char>> {
        strings_view(self.dirs@)
    }

    /// The dependency lists, in the same order.
    pub closed spec fn spec_deps(&self) -> Seq<Seq<Seq<char>>> {
        nested_view(self.deps@)
    }

    /// The three lists line up and no name occurs twice.
    pub closed spec fn wf(&self) -> bool {
        &&& self.names@.len() == self.dirs@.len()
        &&& self.names@.len() == self.deps@.len()
        &&& self.spec_names().no_duplicates()
    }

    /// Whether `x` is a module of the workspace.
    pub open spec fn has(&self, x: Seq<char>) -> bool {
        self.spec_names().contains(x)
    }

    /// Whether the module `x` lists `d` among its dependencies and `d` is a module of the
    /// workspace (dependencies from elsewhere play no part in the build order).
    pub open spec fn module_dep(&self, x: Seq<char>, d: Seq<char>) -> bool {
        &&& self.has(d)
        &&& exists|i: int| 0 <= i < self.spec_names().len() && self.spec_names()[i] == x && #[trigger] self.spec_deps()[i].contains(d)
    }

    /// A workspace without modules.
    pub fn new() -> (g: Self)
        ensures
            g.wf(),
            g.spec_names() == Seq::<Seq<char>>::empty(),
    {
        let g = Self { names: Vec::new(), dirs: Vec::new(), deps: Vec::new() };
        assert(g.spec_names() =~= Seq::<Seq<char>>::empty());
        g
    }

    /// The dependencies of the module at position `i` are its list.
    proof fn lemma_deps_at(&self, i: int, d: Seq<char>)
        requires
            self.wf(),
            0 <= i < self.spec_names().len(),
        ensures
            self.module_dep(self.spec_names()[i], d) <==> (self.has(d) && self.spec_deps()[i].contains(d)),
    {
        if self.module_dep(self.spec_names()[i], d) {
            let j = choose|j: int| 0 <= j < self.spec_names().len() && self.spec_names()[j] == self.spec_names()[i]
                && #[trigger] self.spec_deps()[j].contains(d);
            assert(j == i);
        }
    }

    /// The position of the module named `x`.
    fn index_of(&self, x: &str) -> (r: Option<usize>)
        requires
            self.wf(),
        ensures
            match r {
                Some(j) => j < self.spec_names().len() && self.spec_names()[j as int] == x@,
                None => !self.has(x@),
            },
    {
        let mut j: usize = 0;
        while j < self.names.len()
            invariant
                j <= self.names@.len(),
                forall|k: int| 0 <= k < j ==> self.spec_names()[k] != x@,
            decreases self.names@.len() - j,
        {
            if str_equal(self.names[j].as_str(), x) {
                return Some(j);
            }
            j += 1;
        }
        None
    }

    /// The module names, in the order the modules were added.
    pub fn module_names(&self) -> (r: Vec<String>)
        ensures
            strings_view(r@) == self.spec_names(),
    {
        let mut r: Vec<String> = Vec::new();
        let mut j: usize = 0;
        while j < self.names.len()
            invariant
                j <= self.names@.len(),
                strings_view(r@) == self.spec_names().take(j as int),
            decreases self.names@.len() - j,
        {
            let ghost old_r = r@;
            r.push(to_owned_string(self.names[j].as_str()));
            assert(strings_view(r@) =~= strings_view(old_r).push(self.names@[j as int]@));
            assert(strings_view(r@) =~= self.spec_names().take(j + 1));
            j += 1;
        }
        assert(self.spec_names().take(j as int) =~= self.spec_names());
        r
    }

    /// Adds the module `name`, found in `dir`, that depends on `deps`.  A second module with
    /// a name already present is refused with a plan error that names both directories.
    pub fn add_module(&mut self, name: String, dir: String, deps: Vec<String>) -> (r: Result<(), Error>)
        requires
            old(self).wf(),
        ensures
            final(self).wf(),
            old(self).has(name@) ==> *final(self) == *old(self),
            old(self).has(name@) ==> (r matches Err(Error::Plan(msg))
                && exists|j: int| 0 <= j < old(self).spec_names().len() && old(self).spec_names()[j] == name@
                    && msg@ == "duplicate module name '"@ + name@ + "': "@ + old(self).spec_dirs()[j] + " and "@ + dir@),
            !old(self).has(name@) ==> r is Ok,
            !old(self).has(name@) ==> (final(self).spec_names() == old(self).spec_names().push(name@)
                && final(self).spec_dirs() == old(self).spec_dirs().push(dir@)
                && final(self).spec_deps() == old(self).spec_deps().push(strings_view(deps@))),
    {
        match self.index_of(name.as_str()) {
            Some(j) => {
                let mut msg = to_owned_string("duplicate module name '");
                msg.push_str(name.as_str());
                msg.push_str("': ");
                msg.push_str(self.dirs[j].as_str());
                msg.push_str(" and ");
                msg.push_str(dir.as_str());
                Err(Error::Plan(msg))
            },
            None => {
                let ghost old_names = self.spec_names();
                self.names.push(name);
                self.dirs.push(dir);
                self.deps.push(deps);
                assert(self.spec_names() =~= old(self).spec_names().push(name@));
                assert(self.spec_dirs() =~= old(self).spec_dirs().push(dir@));
                assert(self.spec_deps() =~= old(self).spec_deps().push(strings_view(deps@)));
                assert(self.spec_names().no_duplicates()) by {
                    assert forall|a: int, b: int| 0 <= a < b < self.spec_names().len() implies self.spec_names()[a]
                        != self.spec_names()[b] by {
                        if b == old_names.len() {
                            assert(old_names[a] == self.spec_names()[a]);
                        }
                    }
                }
                Ok(())
            },
        }
    }

    /// The workspace of the modules `modules`, each given as its name, directory and
    /// dependency list, added in order.  The first module whose name repeats an earlier
    /// one stops it with the plan error of [`ModuleGraph::add_module`].
    pub fn from_modules(modules: Vec<(String, String, Vec<String>)>) -> (r: Result<ModuleGraph, Error>)
        ensures
            module_names_of(modules@).no_duplicates() ==> (r matches Ok(g) && g.wf()
                && g.spec_names() == module_names_of(modules@)
                && g.spec_dirs() == module_dirs_of(modules@)
                && g.spec_deps() == module_deps_of(modules@)),
            !module_names_of(modules@).no_duplicates() ==> (r matches Err(Error::Plan(msg))
                && first_repeat_message(modules@, msg@)),
    {
        let ghost ms = modules@;
        let mut g = ModuleGraph::new();
        let mut rest = modules;
        let total = rest.len();
        let mut k: usize = 0;
        assert(ms.skip(0) =~= ms);
        assert(module_names_of(ms).take(0) =~= g.spec_names());
        assert(module_dirs_of(ms).take(0) =~= g.spec_dirs());
        assert(module_deps_of(ms).take(0) =~= g.spec_deps());
        while rest.len() > 0
            invariant
                ms == modules@,
                ms.len() == total,
                k <= ms.len(),
                rest@ == ms.skip(k as int),
                g.wf(),
                g.spec_names() == module_names_of(ms).take(k as int),
                g.spec_dirs() == module_dirs_of(ms).take(k as int),
                g.spec_deps() == module_deps_of(ms).take(k as int),
            decreases rest@.len(),
        {
            let (name, dir, deps) = rest.remove(0);
            assert((name, dir, deps) == ms[k as int]);
            assert(rest@ =~= ms.skip(k + 1));
            let ghost before = g;
            match g.add_module(name, dir, deps) {
                Ok(()) => {},
                Err(e) => {
                    proof {
                        let names = module_names_of(ms);
                        let ki = k as int;
                        assert(before.has(ms[ki].0@));
                        if let Error::Plan(msg) = &e {
                            let j = choose|j: int| 0 <= j < before.spec_names().len() && before.spec_names()[j] == ms[ki].0@
                                && msg@ == "duplicate module name '"@ + ms[ki].0@ + "': "@ + before.spec_dirs()[j] + " and "@
                                + ms[ki].1@;
                            assert(names[j] == ms[j].0@);
                            assert(names.take(ki)[j] == names[j]);
                            assert(module_dirs_of(ms).take(ki)[j] == ms[j].1@);
                            assert(ms[j].0@ == ms[ki].0@);
                            assert(first_repeat_message(ms, msg@));
                        }
                        assert(!names.no_duplicates()) by {
                            let j = choose|j: int| 0 <= j < before.spec_names().len() && before.spec_names()[j] == ms[ki].0@;
                            assert(names.take(ki)[j] == names[j]);
                            assert(names[j] == names[ki]);
                        }
                    }
                    return Err(e);
                },
            }
            proof {
                assert(module_names_of(ms).take(k + 1) =~= module_names_of(ms).take(k as int).push(ms[k as int].0@));
                assert(module_dirs_of(ms).take(k + 1) =~= module_dirs_of(ms).take(k as int).push(ms[k as int].1@));
                assert(module_deps_of(ms).take(k + 1) =~= module_deps_of(ms).take(k as int).push(strings_view(ms[k as int].2@)));
            }
            k += 1;
        }
        assert(module_names_of(ms).take(k as int) =~= module_names_of(ms));
        assert(module_dirs_of(ms).take(k as int) =~= module_dirs_of(ms));
        assert(module_deps_of(ms).take(k as int) =~= module_deps_of(ms));
        Ok(g)
    }

    /// The directory of the module `name`, if there is one.
    pub fn dir_of(&self, name: &str) -> (r: Option<String>)
        requires
            self.wf(),
        ensures
            match r {
                Some(d) => exists|j: int| 0 <= j < self.spec_names().len() && self.spec_names()[j] == name@
                    && self.spec_dirs()[j] == d@,
                None => !self.has(name@),
            },
    {
        match self.index_of(name) {
            Some(j) => Some(to_owned_string(self.dirs[j].as_str())),
            None => None,
        }
    }

    /// Whether every workspace dependency of the module at `i` is marked in `done`.
    fn deps_done(&self, i: usize, done: &Vec<bool>) -> (r: bool)
        requires
            self.wf(),
            i < self.spec_names().len(),
            done@.len() == self.spec_names().len(),
        ensures
            r == (forall|d: Seq<char>| #[trigger] self.module_dep(self.spec_names()[i as int], d) ==> exists|j: int|
                0 <= j < done@.len() && done@[j] && self.spec_names()[j] == d),
    {
        let ghost x = self.spec_names()[i as int];
        let mut k: usize = 0;
        while k < self.deps[i].len()
            invariant
                self.wf(),
                i < self.spec_names().len(),
                done@.len() == self.spec_names().len(),
                x == self.spec_names()[i as int],
                k <= self.deps@[i as int]@.len(),
                forall|m: int| 0 <= m < k ==> #[trigger] self.spec_deps()[i as int][m] == self.spec_deps()[i as int][m]
                    && (self.has(self.spec_deps()[i as int][m]) ==> exists|j: int|
                    0 <= j < done@.len() && done@[j] && self.spec_names()[j] == self.spec_deps()[i as int][m]),
            decreases self.deps@[i as int]@.len() - k,
        {
            let ghost d = self.spec_deps()[i as int][k as int];
            assert(self.deps@[i as int]@[k as int]@ == d);
            match self.index_of(self.deps[i][k].as_str()) {
                Some(j) => {
                    if !done[j] {
                        proof {
                            self.lemma_deps_at(i as int, d);
                            assert(self.spec_deps()[i as int].contains(d));
                            assert(self.module_dep(x, d));
                            assert forall|j2: int| 0 <= j2 < done@.len() && done@[j2] implies self.spec_names()[j2] != d by {
                                if self.spec_names()[j2] == d {
                                    assert(j2 == j);
                                }
                            }
                        }
                        return false;
                    }
                },
                None => {},
            }
            k += 1;
        }
        proof {
            assert forall|d: Seq<char>| #[trigger] self.module_dep(x, d) implies exists|j: int|
                0 <= j < done@.len() && done@[j] && self.spec_names()[j] == d by {
                self.lemma_deps_at(i as int, d);
                let m = choose|m: int| 0 <= m < self.spec_deps()[i as int].len() && self.spec_deps()[i as int][m] == d;
                assert(self.spec_deps()[i as int][m] == self.spec_deps()[i as int][m]);
            }
        }
        true
    }
}


/// Extending the levels leaves what the earlier levels hold unchanged.
pub proof fn lemma_in_levels_push(l: Seq<Seq<Seq<char>>>, lv: Seq<Seq<char>>, x: Seq<char>)
    ensures
        forall|k: int| 0 <= k <= l.len() ==> (in_levels(l.push(lv), k, x) <==> in_levels(l, k, x)),
        in_levels(l.push(lv), l.len() as int + 1, x) <==> (in_levels(l, l.len() as int, x) || lv.contains(x)),
{
    assert forall|k: int| 0 <= k <= l.len() implies (in_levels(l.push(lv), k, x) <==> in_levels(l, k, x)) by {
        if in_levels(l.push(lv), k, x) {
            let j = choose|j: int| 0 <= j < k && #[trigger] l.push(lv)[j].contains(x);
            assert(l[j] == l.push(lv)[j]);
        }
        if in_levels(l, k, x) {
            let j = choose|j: int| 0 <= j < k && #[trigger] l[j].contains(x);
            assert(l[j] == l.push(lv)[j]);
        }
    }
    if in_levels(l.push(lv), l.len() as int + 1, x) {
        let j = choose|j: int| 0 <= j < l.len() + 1 && #[trigger] l.push(lv)[j].contains(x);
        if j < l.len() {
            assert(l[j] == l.push(lv)[j]);
        }
    }
    if lv.contains(x) {
        assert(l.push(lv)[l.len() as int] == lv);
    }
    if in_levels(l, l.len() as int, x) {
        let j = choose|j: int| 0 <= j < l.len() && #[trigger] l[j].contains(x);
        assert(l[j] == l.push(lv)[j]);
    }
}

impl ModuleGraph {
    /// The properties that make `l` the build levels of every module that can be built:
    /// each level is a non-empty set of modules not in an earlier level; every workspace
    /// dependency of a module lies in an earlier level; a level takes every module that is
    /// not yet placed and whose dependencies all are.
    pub open spec fn levels_ok(&self, l: Seq<Seq<Seq<char>>>) -> bool {
        &&& forall|k: int| 0 <= k < l.len() ==> #[trigger] l[k].len() > 0
        &&& forall|k: int| 0 <= k < l.len() ==> #[trigger] l[k].no_duplicates()
        &&& forall|k: int, x: Seq<char>| 0 <= k < l.len() && #[trigger] l[k].contains(x) ==> self.has(x) && !in_levels(l, k, x)
        &&& forall|k: int, x: Seq<char>, d: Seq<char>|
            0 <= k < l.len() && #[trigger] l[k].contains(x) && #[trigger] self.module_dep(x, d) ==> in_levels(l, k, d)
        &&& forall|k: int, y: Seq<char>|
            0 <= k < l.len() && self.has(y) && !in_levels(l, k, y) && (forall|d: Seq<char>| #[trigger] self.module_dep(y, d) ==> in_levels(l, k, d))
                ==> #[trigger] l[k].contains(y)
    }

    /// The levels stop only at a dependency cycle: every module left out has a workspace
    /// dependency that is left out too.
    pub open spec fn levels_complete(&self, l: Seq<Seq<Seq<char>>>) -> bool {
        forall|y: Seq<char>| #[trigger] self.has(y) && !in_levels(l, l.len() as int, y) ==> exists|d: Seq<char>|
            #[trigger] self.module_dep(y, d) && !in_levels(l, l.len() as int, d)
    }

    /// Groups the modules into build levels: the first level holds the modules whose
    /// dependencies are all outside the workspace, each next level the modules whose
    /// dependencies are all in earlier levels.  Modules on or behind a dependency cycle are
    /// left out.  Within a level, modules keep the order they were added in.
    pub fn build_levels(&self) -> (levels: Vec<Vec<String>>)
        requires
            self.wf(),
        ensures
            self.levels_ok(nested_view(levels@)),
            self.levels_complete(nested_view(levels@)),
    {
        let n = self.names.len();
        let mut done: Vec<bool> = Vec::new();
        while done.len() < n
            invariant
                done@.len() <= n,
                forall|i: int| 0 <= i < done@.len() ==> !done@[i],
            decreases n - done@.len(),
        {
            done.push(false);
        }
        let mut levels: Vec<Vec<String>> = Vec::new();
        proof {
            assert(count_true(done@) == 0) by {
                lemma_count_zero(done@);
            }
        }
        loop
            invariant
                self.wf(),
                n == self.spec_names().len(),
                done@.len() == n,
                self.levels_ok(nested_view(levels@)),
                forall|i: int| 0 <= i < n ==> (done@[i] <==> in_levels(nested_view(levels@), levels@.len() as int, #[trigger] self.spec_names()[i])),
                forall|x: Seq<char>| in_levels(nested_view(levels@), levels@.len() as int, x) ==> self.has(x),
            decreases n - count_true(done@),
        {
            let ghost l = nested_view(levels@);
            let ghost k = levels@.len() as int;
            proof {
                lemma_count_true_bound(done@);
            }
            let mut ready: Vec<bool> = Vec::new();
            let mut level: Vec<String> = Vec::new();
            let mut i: usize = 0;
            while i < n
                invariant
                    self.wf(),
                    n == self.spec_names().len(),
                    done@.len() == n,
                    i <= n,
                    ready@.len() == i,
                    forall|m: int| 0 <= m < i ==> (#[trigger] ready@[m] <==> (!done@[m] && forall|d: Seq<char>|
                        #[trigger] self.module_dep(self.spec_names()[m], d) ==> exists|j: int|
                        0 <= j < n && done@[j] && self.spec_names()[j] == d)),
                    strings_view(level@).no_duplicates(),
                    forall|x: Seq<char>| strings_view(level@).contains(x) <==> exists|m: int| 0 <= m < i && ready@[m]
                        && #[trigger] self.spec_names()[m] == x,
                decreases n - i,
            {
                let r = !done[i] && self.deps_done(i, &done);
                ready.push(r);
                if r {
                    let ghost old_level = strings_view(level@);
                    level.push(to_owned_string(self.names[i].as_str()));
                    proof {
                        let x = self.spec_names()[i as int];
                        assert(strings_view(level@) =~= old_level.push(x));
                        assert(!old_level.contains(x)) by {
                            if old_level.contains(x) {
                                let m = choose|m: int| 0 <= m < i && ready@[m] && #[trigger] self.spec_names()[m] == x;
                                assert(self.spec_names()[m] == self.spec_names()[i as int]);
                            }
                        }
                        assert forall|a: int, b: int| 0 <= a < b < strings_view(level@).len() implies strings_view(level@)[a]
                            != strings_view(level@)[b] by {
                            if b == old_level.len() {
                                assert(old_level.contains(old_level[a]));
                            }
                        }
                        assert forall|y: Seq<char>| strings_view(level@).contains(y) <==> exists|m: int| 0 <= m < i + 1 && ready@[m]
                            && #[trigger] self.spec_names()[m] == y by {
                            if strings_view(level@).contains(y) {
                                let p = choose|p: int| 0 <= p < strings_view(level@).len() && strings_view(level@)[p] == y;
                                if p < old_level.len() {
                                    assert(old_level.contains(y));
                                }
                            }
                            if exists|m: int| 0 <= m < i + 1 && ready@[m] && #[trigger] self.spec_names()[m] == y {
                                let m = choose|m: int| 0 <= m < i + 1 && ready@[m] && #[trigger] self.spec_names()[m] == y;
                                if m < i {
                                    assert(old_level.contains(y));
                                    let p = choose|p: int| 0 <= p < old_level.len() && old_level[p] == y;
                                    assert(strings_view(level@)[p] == y);
                                } else {
                                    assert(strings_view(level@)[old_level.len() as int] == y);
                                }
                            }
                        }
                    }
                } else {
                    proof {
                        assert forall|y: Seq<char>| strings_view(level@).contains(y) <==> exists|m: int| 0 <= m < i + 1 && ready@[m]
                            && #[trigger] self.spec_names()[m] == y by {
                            if exists|m: int| 0 <= m < i + 1 && ready@[m] && #[trigger] self.spec_names()[m] == y {
                                let m = choose|m: int| 0 <= m < i + 1 && ready@[m] && #[trigger] self.spec_names()[m] == y;
                                assert(m < i);
                            }
                        }
                    }
                }
                i += 1;
            }
            let ghost lv = strings_view(level@);
            // A name is ready exactly when it is not placed and its dependencies all are.
            assert forall|y: Seq<char>| self.has(y) && !in_levels(l, k, y)
                && (forall|d: Seq<char>| #[trigger] self.module_dep(y, d) ==> in_levels(l, k, d)) implies lv.contains(y) by {
                let m = choose|m: int| 0 <= m < n && self.spec_names()[m] == y;
                assert(!done@[m]);
                assert forall|d: Seq<char>| #[trigger] self.module_dep(self.spec_names()[m], d) implies exists|j: int|
                    0 <= j < n && done@[j] && self.spec_names()[j] == d by {
                    assert(in_levels(l, k, d));
                    let j = choose|j: int| 0 <= j < n && self.spec_names()[j] == d;
                    assert(done@[j]);
                }
                assert(ready@[m]);
            }
            if level.len() == 0 {
                proof {
                    assert forall|y: Seq<char>| #[trigger] self.has(y) && !in_levels(l, k, y) implies exists|d: Seq<char>|
                        #[trigger] self.module_dep(y, d) && !in_levels(l, k, d) by {
                        if !exists|d: Seq<char>| #[trigger] self.module_dep(y, d) && !in_levels(l, k, d) {
                            assert(lv.contains(y));
                            assert(lv[0] == lv[0]);
                        }
                    }
                }
                return levels;
            }
            // Every name of the new level is ready.
            assert forall|x: Seq<char>| lv.contains(x) implies self.has(x) && !in_levels(l, k, x)
                && forall|d: Seq<char>| #[trigger] self.module_dep(x, d) ==> in_levels(l, k, d) by {
                let m = choose|m: int| 0 <= m < n && ready@[m] && #[trigger] self.spec_names()[m] == x;
                assert(!done@[m]);
                assert forall|d: Seq<char>| #[trigger] self.module_dep(x, d) implies in_levels(l, k, d) by {
                    let j = choose|j: int| 0 <= j < n && done@[j] && self.spec_names()[j] == d;
                    assert(done@[j]);
                }
            }
            let ghost old_count = count_true(done@);
            let ghost old_done = done@;
            assert(lv.contains(lv[0]));
            let ghost m0 = choose|m: int| 0 <= m < n && ready@[m] && #[trigger] self.spec_names()[m] == lv[0];
            let mut i: usize = 0;
            while i < n
                invariant
                    n == self.spec_names().len(),
                    done@.len() == n,
                    ready@.len() == n,
                    i <= n,
                    old_done.len() == n,
                    forall|m: int| 0 <= m < n ==> (#[trigger] ready@[m] ==> !old_done[m]),
                    forall|m: int| 0 <= m < i ==> done@[m] == (old_done[m] || ready@[m]),
                    forall|m: int| i <= m < n ==> done@[m] == old_done[m],
                    count_true(done@) >= old_count,
                    0 <= m0 < n,
                    ready@[m0],
                    m0 < i ==> count_true(done@) > old_count,
                decreases n - i,
            {
                if ready[i] {
                    proof {
                        lemma_count_true_set(done@, i as int);
                    }
                    done.set(i, true);
                }
                i += 1;
            }
            proof {
                lemma_count_true_bound(done@);
            }
            let ghost new_l = l.push(lv);
            levels.push(level);
            proof {
                assert(nested_view(levels@) =~= new_l);
                assert forall|x: Seq<char>| #![all_triggers] true implies (forall|j: int| 0 <= j <= k ==> (in_levels(new_l, j, x) <==> in_levels(l, j, x)))
                    && (in_levels(new_l, k + 1, x) <==> (in_levels(l, k, x) || lv.contains(x))) by {
                    lemma_in_levels_push(l, lv, x);
                }
                assert forall|i2: int| 0 <= i2 < n implies (done@[i2] <==> in_levels(new_l, k + 1, #[trigger] self.spec_names()[i2])) by {
                    let x = self.spec_names()[i2];
                    if lv.contains(x) {
                        let m = choose|m: int| 0 <= m < n && ready@[m] && #[trigger] self.spec_names()[m] == x;
                        assert(m == i2);
                    }
                }
                assert(self.levels_ok(new_l));
            }
        }
    }
}

/// A sequence of `false` entries counts none.
proof fn lemma_count_zero(s: Seq<bool>)
    requires
        forall|i: int| 0 <= i < s.len() ==> !s[i],
    ensures
        count_true(s) == 0,
    decreases s.len(),
{
    if s.len() > 0 {
        lemma_count_zero(s.drop_last());
    }
}


/// Whether `x` is one of the strings of `v`.
pub fn vec_contains(v: &Vec<String>, x: &str) -> (r: bool)
    ensures
        r == strings_view(v@).contains(x@),
{
    let mut k: usize = 0;
    while k < v.len()
        invariant
            k <= v@.len(),
            forall|m: int| 0 <= m < k ==> strings_view(v@)[m] != x@,
        decreases v@.len() - k,
    {
        if str_equal(v[k].as_str(), x) {
            assert(strings_view(v@)[k as int] == x@);
            return true;
        }
        k += 1;
    }
    false
}

impl ModuleGraph {
    /// Whether the module `y` lists `x` among its dependencies (whether or not `x` is a
    /// module of the workspace).
    pub open spec fn lists_dep(&self, y: Seq<char>, x: Seq<char>) -> bool {
        exists|i: int| 0 <= i < self.spec_names().len() && self.spec_names()[i] == y && #[trigger] self.spec_deps()[i].contains(x)
    }

    /// Whether `c` is the set of modules affected by a change to `seeds`: the seeds and,
    /// repeatedly, every module that depends on a member.  Each member is a seed or comes
    /// after a member it depends on, so nothing else is in it.
    pub open spec fn closure_ok(&self, seeds: Seq<Seq<char>>, c: Seq<Seq<char>>) -> bool {
        &&& c.no_duplicates()
        &&& forall|x: Seq<char>| seeds.contains(x) ==> c.contains(x)
        &&& forall|x: Seq<char>, y: Seq<char>| c.contains(x) && #[trigger] self.lists_dep(y, x) ==> c.contains(y)
        &&& forall|p: int| 0 <= p < c.len() ==> seeds.contains(#[trigger] c[p]) || exists|q: int|
            0 <= q < p && self.lists_dep(c[p], c[q])
    }

    /// The modules affected by a change to the modules `seeds`: the seeds and everything that
    /// depends on them, directly or through other modules.
    #[verifier::spinoff_prover]
    #[verifier::rlimit(40)]
    pub fn affected_closure(&self, seeds: &Vec<String>) -> (c: Vec<String>)
        requires
            self.wf(),
        ensures
            self.closure_ok(strings_view(seeds@), strings_view(c@)),
    {
        let ghost sv = strings_view(seeds@);
        let n = self.names.len();
        let mut c: Vec<String> = Vec::new();
        let mut k: usize = 0;
        while k < seeds.len()
            invariant
                k <= seeds@.len(),
                sv == strings_view(seeds@),
                strings_view(c@).no_duplicates(),
                forall|m: int| 0 <= m < k ==> strings_view(c@).contains(#[trigger] sv[m]),
                forall|p: int| 0 <= p < c@.len() ==> sv.contains(#[trigger] strings_view(c@)[p]),
                c@.len() <= k,
            decreases seeds@.len() - k,
        {
            if !vec_contains(&c, seeds[k].as_str()) {
                let ghost old_c = strings_view(c@);
                c.push(to_owned_string(seeds[k].as_str()));
                proof {
                    assert(strings_view(c@) =~= old_c.push(sv[k as int]));
                    assert(strings_view(c@)[old_c.len() as int] == sv[k as int]);
                    assert forall|a: int, b: int| 0 <= a < b < strings_view(c@).len() implies strings_view(c@)[a]
                        != strings_view(c@)[b] by {
                        if b == old_c.len() {
                            assert(old_c.contains(old_c[a]));
                        }
                    }
                    assert forall|m: int| 0 <= m < k + 1 implies strings_view(c@).contains(#[trigger] sv[m]) by {
                        if m < k {
                            let p = choose|p: int| 0 <= p < old_c.len() && old_c[p] == sv[m];
                            assert(strings_view(c@)[p] == sv[m]);
                        }
                    }
                    assert forall|p: int| 0 <= p < c@.len() implies sv.contains(#[trigger] strings_view(c@)[p]) by {
                        if p < old_c.len() {
                            assert(strings_view(c@)[p] == old_c[p]);
                        }
                    }
                }
            }
            k += 1;
        }
        let init = c.len();
        let mut added: Vec<bool> = Vec::new();
        while added.len() < n
            invariant
                added@.len() <= n,
                forall|i: int| 0 <= i < added@.len() ==> !added@[i],
            decreases n - added@.len(),
        {
            added.push(false);
        }
        proof {
            lemma_count_zero(added@);
        }
        let mut head: usize = 0;
        while head < c.len()
            invariant
                self.wf(),
                n == self.spec_names().len(),
                sv == strings_view(seeds@),
                init <= c@.len(),
                init <= seeds@.len(),
                head <= c@.len(),
                added@.len() == n,
                c@.len() == init + count_true(added@),
                forall|j: int| 0 <= j < n ==> (#[trigger] added@[j] <==> strings_view(c@).skip(init as int).contains(self.spec_names()[j])),
                strings_view(c@).no_duplicates(),
                forall|x: Seq<char>| sv.contains(x) ==> strings_view(c@).contains(x),
                forall|p: int| 0 <= p < init ==> sv.contains(#[trigger] strings_view(c@)[p]),
                forall|p: int| init <= p < c@.len() ==> exists|q: int| 0 <= q < p && self.lists_dep(#[trigger] strings_view(c@)[p], strings_view(c@)[q]),
                forall|q: int, y: Seq<char>| 0 <= q < head && #[trigger] self.lists_dep(y, strings_view(c@)[q]) ==> strings_view(c@).contains(y),
            decreases seeds@.len() + n - head,
        {
            proof {
                lemma_count_true_bound(added@);
            }
            let ghost cur = strings_view(c@)[head as int];
            let mut j: usize = 0;
            while j < n
                invariant
                    self.wf(),
                    n == self.spec_names().len(),
                    sv == strings_view(seeds@),
                    init <= c@.len(),
                    head < c@.len(),
                    cur == strings_view(c@)[head as int],
                    j <= n,
                    added@.len() == n,
                    c@.len() == init + count_true(added@),
                    forall|j2: int| 0 <= j2 < n ==> (#[trigger] added@[j2] <==> strings_view(c@).skip(init as int).contains(self.spec_names()[j2])),
                    strings_view(c@).no_duplicates(),
                    forall|x: Seq<char>| sv.contains(x) ==> strings_view(c@).contains(x),
                    forall|p: int| 0 <= p < init ==> sv.contains(#[trigger] strings_view(c@)[p]),
                    forall|p: int| init <= p < c@.len() ==> exists|q: int| 0 <= q < p && self.lists_dep(#[trigger] strings_view(c@)[p], strings_view(c@)[q]),
                    forall|q: int, y: Seq<char>| 0 <= q < head && #[trigger] self.lists_dep(y, strings_view(c@)[q]) ==> strings_view(c@).contains(y),
                    forall|j2: int| 0 <= j2 < j && #[trigger] self.spec_deps()[j2].contains(cur) ==> strings_view(c@).contains(self.spec_names()[j2]),
                decreases n - j,
            {
                let ghost y = self.spec_names()[j as int];
                if vec_contains(&self.deps[j], c[head].as_str()) && !vec_contains(&c, self.names[j].as_str()) {
                    let ghost old_c = strings_view(c@);
                    let ghost old_added = added@;
                    proof {
                        assert(self.spec_deps()[j as int] == strings_view(self.deps@[j as int]@));
                        if old_c.skip(init as int).contains(y) {
                            let p = choose|p: int| 0 <= p < old_c.skip(init as int).len() && old_c.skip(init as int)[p] == y;
                            assert(old_c[init + p] == y);
                        }
                        lemma_count_true_set(added@, j as int);
                    }
                    c.push(to_owned_string(self.names[j].as_str()));
                    added.set(j, true);
                    proof {
                        assert(strings_view(c@) =~= old_c.push(y));
                        assert(strings_view(c@).skip(init as int) =~= old_c.skip(init as int).push(y));
                        assert(strings_view(c@)[old_c.len() as int] == y);
                        assert forall|a: int, b: int| 0 <= a < b < strings_view(c@).len() implies strings_view(c@)[a]
                            != strings_view(c@)[b] by {
                            if b == old_c.len() {
                                assert(old_c.contains(old_c[a]));
                            }
                        }
                        assert forall|x: Seq<char>| sv.contains(x) implies strings_view(c@).contains(x) by {
                            assert(old_c.contains(x));
                            let p = choose|p: int| 0 <= p < old_c.len() && old_c[p] == x;
                            assert(strings_view(c@)[p] == x);
                        }
                        assert forall|p: int| 0 <= p < init implies sv.contains(#[trigger] strings_view(c@)[p]) by {
                            assert(strings_view(c@)[p] == old_c[p]);
                        }
                        assert forall|p: int| init <= p < c@.len() implies exists|q: int| 0 <= q < p && self.lists_dep(
                            #[trigger] strings_view(c@)[p], strings_view(c@)[q]) by {
                            if p < old_c.len() {
                                assert(strings_view(c@)[p] == old_c[p]);
                                let q = choose|q: int| 0 <= q < p && self.lists_dep(old_c[p], old_c[q]);
                                assert(strings_view(c@)[q] == old_c[q]);
                            } else {
                                assert(self.lists_dep(y, cur));
                                assert(strings_view(c@)[head as int] == cur);
                            }
                        }
                        assert forall|j2: int| 0 <= j2 < n implies (#[trigger] added@[j2] <==> strings_view(c@).skip(init as int).contains(
                            self.spec_names()[j2])) by {
                            let t = strings_view(c@).skip(init as int);
                            let t0 = old_c.skip(init as int);
                            if t.contains(self.spec_names()[j2]) && j2 != j {
                                let p = choose|p: int| 0 <= p < t.len() && t[p] == self.spec_names()[j2];
                                if p < t0.len() {
                                    assert(t0[p] == t[p]);
                                }
                            }
                            if j2 != j && t0.contains(self.spec_names()[j2]) {
                                let p = choose|p: int| 0 <= p < t0.len() && t0[p] == self.spec_names()[j2];
                                assert(t[p] == t0[p]);
                            }
                            if j2 == j {
                                assert(t[t0.len() as int] == y);
                            }
                        }
                        assert forall|q: int, y2: Seq<char>| 0 <= q < head && #[trigger] self.lists_dep(y2, strings_view(c@)[q])
                            implies strings_view(c@).contains(y2) by {
                            assert(strings_view(c@)[q] == old_c[q]);
                            assert(old_c.contains(y2));
                            let p = choose|p: int| 0 <= p < old_c.len() && old_c[p] == y2;
                            assert(strings_view(c@)[p] == y2);
                        }
                        assert forall|j2: int| 0 <= j2 < j + 1 && #[trigger] self.spec_deps()[j2].contains(cur) implies strings_view(
                            c@).contains(self.spec_names()[j2]) by {
                            if j2 < j {
                                assert(old_c.contains(self.spec_names()[j2]));
                                let p = choose|p: int| 0 <= p < old_c.len() && old_c[p] == self.spec_names()[j2];
                                assert(strings_view(c@)[p] == old_c[p]);
                            } else {
                                assert(strings_view(c@)[old_c.len() as int] == y);
                            }
                        }
                    }
                } else {
                    proof {
                        assert(self.spec_deps()[j as int] == strings_view(self.deps@[j as int]@));
                    }
                }
                j += 1;
            }
            proof {
                assert forall|q: int, y: Seq<char>| 0 <= q < head + 1 && #[trigger] self.lists_dep(y, strings_view(c@)[q])
                    implies strings_view(c@).contains(y) by {
                    if q == head {
                        let i = choose|i: int| 0 <= i < n && self.spec_names()[i] == y && #[trigger] self.spec_deps()[i].contains(
                            cur);
                        assert(self.spec_deps()[i].contains(cur));
                    }
                }
                lemma_count_true_bound(added@);
            }
            head += 1;
        }
        proof {
            assert forall|p: int| 0 <= p < c@.len() implies sv.contains(#[trigger] strings_view(c@)[p]) || exists|q: int|
                0 <= q < p && self.lists_dep(strings_view(c@)[p], strings_view(c@)[q]) by {
                if p >= init {
                    let q = choose|q: int| 0 <= q < p && self.lists_dep(strings_view(c@)[p], strings_view(c@)[q]);
                }
            }
        }
        c
    }
}


/// The position of `x` among the strings of `v`.
fn position_in(v: &Vec<String>, x: &str) -> (r: Option<usize>)
    ensures
        match r {
            Some(i) => i < v@.len() && strings_view(v@)[i as int] == x@,
            None => !strings_view(v@).contains(x@),
        },
{
    let mut k: usize = 0;
    while k < v.len()
        invariant
            k <= v@.len(),
            forall|m: int| 0 <= m < k ==> strings_view(v@)[m] != x@,
        decreases v@.len() - k,
    {
        if str_equal(v[k].as_str(), x) {
            return Some(k);
        }
        k += 1;
    }
    None
}

/// Whether `x` is one of the first `k` strings of `v`.
fn prefix_contains(v: &Vec<String>, k: usize, x: &str) -> (r: bool)
    requires
        k <= v@.len(),
    ensures
        r == strings_view(v@).take(k as int).contains(x@),
{
    let mut m: usize = 0;
    while m < k
        invariant
            k <= v@.len(),
            m <= k,
            forall|q: int| 0 <= q < m ==> strings_view(v@)[q] != x@,
        decreases k - m,
    {
        if str_equal(v[m].as_str(), x) {
            assert(strings_view(v@).take(k as int)[m as int] == x@);
            return true;
        }
        m += 1;
    }
    proof {
        if strings_view(v@).take(k as int).contains(x@) {
            let q = choose|q: int| 0 <= q < k && strings_view(v@).take(k as int)[q] == x@;
            assert(strings_view(v@)[q] == x@);
        }
    }
    false
}

impl ModuleGraph {
    /// Whether `t` is a build order of the modules in `subset`: no repeats, only members of
    /// the subset, every dependency within the subset before its dependents, and every
    /// member left out depends on a member that is left out too (a cycle stops it).
    pub open spec fn order_ok(&self, subset: Seq<Seq<char>>, t: Seq<Seq<char>>) -> bool {
        &&& t.no_duplicates()
        &&& forall|p: int| 0 <= p < t.len() ==> subset.contains(#[trigger] t[p])
        &&& forall|p: int, d: Seq<char>| 0 <= p < t.len() && #[trigger] self.lists_dep(t[p], d) && subset.contains(d)
            ==> exists|q: int| 0 <= q < p && t[q] == d
        &&& forall|y: Seq<char>| subset.contains(y) && !t.contains(y) ==> exists|d: Seq<char>|
            #[trigger] self.lists_dep(y, d) && subset.contains(d) && !t.contains(d)
    }

    /// Whether every dependency of the module at `j` that lies in `subset` is among the first
    /// `head` entries of `order`.
    fn deps_emitted(&self, j: usize, subset: &Vec<String>, order: &Vec<String>, head: usize) -> (r: bool)
        requires
            self.wf(),
            j < self.spec_names().len(),
            head <= order@.len(),
        ensures
            r == (forall|d: Seq<char>| #[trigger] self.lists_dep(self.spec_names()[j as int], d) && strings_view(subset@).contains(d)
                ==> strings_view(order@).take(head as int).contains(d)),
    {
        let ghost y = self.spec_names()[j as int];
        let ghost dv = self.spec_deps()[j as int];
        assert(dv == strings_view(self.deps@[j as int]@));
        let mut k: usize = 0;
        while k < self.deps[j].len()
            invariant
                self.wf(),
                j < self.spec_names().len(),
                head <= order@.len(),
                dv == self.spec_deps()[j as int],
                dv == strings_view(self.deps@[j as int]@),
                y == self.spec_names()[j as int],
                k <= dv.len(),
                forall|m: int| 0 <= m < k && strings_view(subset@).contains(#[trigger] dv[m]) ==> strings_view(order@).take(
                    head as int).contains(dv[m]),
            decreases dv.len() - k,
        {
            if vec_contains(subset, self.deps[j][k].as_str()) && !prefix_contains(order, head, self.deps[j][k].as_str()) {
                proof {
                    assert(dv[k as int] == self.deps@[j as int]@[k as int]@);
                    assert(dv.contains(dv[k as int]));
                    assert(self.spec_deps()[j as int].contains(dv[k as int]));
                    assert(self.lists_dep(y, dv[k as int]));
                }
                return false;
            }
            assert(dv[k as int] == self.deps@[j as int]@[k as int]@);
            k += 1;
        }
        proof {
            assert forall|d: Seq<char>| #[trigger] self.lists_dep(y, d) && strings_view(subset@).contains(d) implies strings_view(
                order@).take(head as int).contains(d) by {
                let i = choose|i: int| 0 <= i < self.spec_names().len() && self.spec_names()[i] == y
                    && #[trigger] self.spec_deps()[i].contains(d);
                assert(i == j);
                let m = choose|m: int| 0 <= m < dv.len() && dv[m] == d;
                assert(strings_view(subset@).contains(dv[m]));
            }
        }
        true
    }

    /// An order in which to build the modules of `subset`: each comes after the members of
    /// `subset` it depends on; members on or behind a dependency cycle are left out.  A
    /// module enters the order when its last such dependency has been built.
    pub fn topological_order_of(&self, subset: &Vec<String>) -> (order: Vec<String>)
        requires
            self.wf(),
        ensures
            self.order_ok(strings_view(subset@), strings_view(order@)),
    {
        let ghost sv = strings_view(subset@);
        let n = self.names.len();
        let ghost nm = self.spec_names();
        let mut order: Vec<String> = Vec::new();
        let mut mark: Vec<bool> = Vec::new();
        while mark.len() < subset.len()
            invariant
                mark@.len() <= subset@.len(),
                forall|i: int| 0 <= i < mark@.len() ==> !mark@[i],
            decreases subset@.len() - mark@.len(),
        {
            mark.push(false);
        }
        proof {
            lemma_count_zero(mark@);
        }
        // The members with no dependency in the subset come first.
        let mut i: usize = 0;
        while i < subset.len()
            invariant
                self.wf(),
                nm == self.spec_names(),
                sv == strings_view(subset@),
                i <= subset@.len(),
                mark@.len() == subset@.len(),
                order@.len() == count_true(mark@),
                forall|m: int| 0 <= m < mark@.len() && #[trigger] mark@[m] ==> strings_view(order@).contains(sv[m]),
                strings_view(order@).no_duplicates(),
                forall|p: int| 0 <= p < order@.len() ==> sv.contains(#[trigger] strings_view(order@)[p]),
                forall|p: int, d: Seq<char>| 0 <= p < order@.len() && #[trigger] self.lists_dep(strings_view(order@)[p], d)
                    ==> !sv.contains(d),
                forall|m: int| 0 <= m < i && !strings_view(order@).contains(#[trigger] sv[m]) ==> exists|d: Seq<char>|
                    #[trigger] self.lists_dep(sv[m], d) && sv.contains(d),
            decreases subset@.len() - i,
        {
            let ghost y = sv[i as int];
            let ghost old_o = strings_view(order@);
            let no_deps = match self.index_of(subset[i].as_str()) {
                Some(j) => {
                    let e: Vec<String> = Vec::new();
                    let r = self.deps_emitted(j, subset, &e, 0);
                    proof {
                        assert(strings_view(e@).take(0) =~= Seq::<Seq<char>>::empty());
                        if !r {
                            let d = choose|d: Seq<char>| #[trigger] self.lists_dep(nm[j as int], d) && sv.contains(d)
                                && !strings_view(e@).take(0).contains(d);
                        } else {
                            assert forall|d: Seq<char>| #[trigger] self.lists_dep(y, d) implies !sv.contains(d) by {
                                if sv.contains(d) {
                                    assert(strings_view(e@).take(0).contains(d));
                                }
                            }
                        }
                    }
                    r
                },
                None => {
                    proof {
                        assert forall|d: Seq<char>| #[trigger] self.lists_dep(y, d) implies false by {
                            let i2 = choose|i2: int| 0 <= i2 < nm.len() && nm[i2] == y && #[trigger] self.spec_deps()[i2].contains(d);
                            assert(self.has(y));
                        }
                    }
                    true
                },
            };
            if no_deps && !vec_contains(&order, subset[i].as_str()) {
                proof {
                    assert(!mark@[i as int]);
                    lemma_count_true_set(mark@, i as int);
                }
                order.push(to_owned_string(subset[i].as_str()));
                mark.set(i, true);
                proof {
                    assert(strings_view(order@) =~= old_o.push(y));
                    assert(strings_view(order@)[old_o.len() as int] == y);
                    assert forall|a: int, b: int| 0 <= a < b < strings_view(order@).len() implies strings_view(order@)[a]
                        != strings_view(order@)[b] by {
                        if b == old_o.len() {
                            assert(old_o.contains(old_o[a]));
                        }
                    }
                    assert forall|m: int| 0 <= m < mark@.len() && #[trigger] mark@[m] implies strings_view(order@).contains(sv[m]) by {
                        if m != i {
                            let p = choose|p: int| 0 <= p < old_o.len() && old_o[p] == sv[m];
                            assert(strings_view(order@)[p] == sv[m]);
                        }
                    }
                    assert forall|m: int| 0 <= m < i + 1 && !strings_view(order@).contains(#[trigger] sv[m]) implies exists|d: Seq<char>|
                        #[trigger] self.lists_dep(sv[m], d) && sv.contains(d) by {
                        if m < i && old_o.contains(sv[m]) {
                            let p = choose|p: int| 0 <= p < old_o.len() && old_o[p] == sv[m];
                            assert(strings_view(order@)[p] == sv[m]);
                        }
                    }
                }
            } else {
                proof {
                    if !no_deps {
                        assert(exists|d: Seq<char>| #[trigger] self.lists_dep(y, d) && sv.contains(d));
                    }
                }
            }
            i += 1;
        }
        proof {
            lemma_count_true_bound(mark@);
            assert forall|y: Seq<char>| sv.contains(y) && !strings_view(order@).contains(y) implies exists|d: Seq<char>|
                #[trigger] self.lists_dep(y, d) && sv.contains(d) && !strings_view(order@).take(0).contains(d) by {
                let m = choose|m: int| 0 <= m < sv.len() && sv[m] == y;
                let d = choose|d: Seq<char>| #[trigger] self.lists_dep(sv[m], d) && sv.contains(d);
                assert(!strings_view(order@).take(0).contains(d));
            }
        }
        let mut head: usize = 0;
        while head < order.len()
            invariant
                self.wf(),
                nm == self.spec_names(),
                n == nm.len(),
                sv == strings_view(subset@),
                head <= order@.len(),
                mark@.len() == subset@.len(),
                order@.len() == count_true(mark@),
                count_true(mark@) <= subset@.len(),
                forall|m: int| 0 <= m < mark@.len() && #[trigger] mark@[m] ==> strings_view(order@).contains(sv[m]),
                strings_view(order@).no_duplicates(),
                forall|p: int| 0 <= p < order@.len() ==> sv.contains(#[trigger] strings_view(order@)[p]),
                forall|p: int, d: Seq<char>| 0 <= p < order@.len() && #[trigger] self.lists_dep(strings_view(order@)[p], d)
                    && sv.contains(d) ==> exists|q: int| 0 <= q < p && q < head && strings_view(order@)[q] == d,
                forall|y: Seq<char>| sv.contains(y) && !strings_view(order@).contains(y) ==> exists|d: Seq<char>|
                    #[trigger] self.lists_dep(y, d) && sv.contains(d) && !strings_view(order@).take(head as int).contains(d),
            decreases subset@.len() - head,
        {
            let ghost cur = strings_view(order@)[head as int];
            let ghost t0 = strings_view(order@).take(head as int);
            head += 1;
            proof {
                assert(strings_view(order@).take(head as int) =~= t0.push(cur));
                assert forall|p: int, d: Seq<char>| 0 <= p < order@.len() && #[trigger] self.lists_dep(strings_view(order@)[p], d)
                    && sv.contains(d) implies exists|q: int| 0 <= q < p && q < head && strings_view(order@)[q] == d by {
                    let q = choose|q: int| 0 <= q < p && q < head - 1 && strings_view(order@)[q] == d;
                }
            }
            let mut j: usize = 0;
            while j < n
                invariant
                    self.wf(),
                    nm == self.spec_names(),
                    n == nm.len(),
                    sv == strings_view(subset@),
                    0 < head <= order@.len(),
                    j <= n,
                    cur == strings_view(order@)[head - 1],
                    mark@.len() == subset@.len(),
                    order@.len() == count_true(mark@),
                    forall|m: int| 0 <= m < mark@.len() && #[trigger] mark@[m] ==> strings_view(order@).contains(sv[m]),
                    strings_view(order@).no_duplicates(),
                    forall|p: int| 0 <= p < order@.len() ==> sv.contains(#[trigger] strings_view(order@)[p]),
                    forall|p: int, d: Seq<char>| 0 <= p < order@.len() && #[trigger] self.lists_dep(strings_view(order@)[p], d)
                        && sv.contains(d) ==> exists|q: int| 0 <= q < p && q < head && strings_view(order@)[q] == d,
                    forall|y: Seq<char>| sv.contains(y) && !strings_view(order@).contains(y) ==> (exists|d: Seq<char>|
                        #[trigger] self.lists_dep(y, d) && sv.contains(d) && !strings_view(order@).take(head as int).contains(d))
                        || (exists|i2: int| j <= i2 < n && nm[i2] == y && #[trigger] self.spec_deps()[i2].contains(cur)),
                decreases n - j,
            {
                let ghost y = nm[j as int];
                let ghost old_o = strings_view(order@);
                assert(self.spec_deps()[j as int] == strings_view(self.deps@[j as int]@));
                let lists_cur = vec_contains(&self.deps[j], order[head - 1].as_str());
                let wanted = lists_cur && !vec_contains(&order, self.names[j].as_str());
                let pos = if wanted {
                    position_in(subset, self.names[j].as_str())
                } else {
                    None
                };
                let ready = match pos {
                    Some(_) => self.deps_emitted(j, subset, &order, head),
                    None => false,
                };
                if ready {
                    let si = match pos {
                        Some(si) => si,
                        None => 0,
                    };
                    proof {
                        if mark@[si as int] {
                            assert(old_o.contains(sv[si as int]));
                        }
                        lemma_count_true_set(mark@, si as int);
                    }
                    order.push(to_owned_string(self.names[j].as_str()));
                    mark.set(si, true);
                    proof {
                        lemma_count_true_bound(mark@);
                        assert(strings_view(order@) =~= old_o.push(y));
                        assert(strings_view(order@)[old_o.len() as int] == y);
                        assert(strings_view(order@).take(head as int) =~= old_o.take(head as int));
                        assert forall|a: int, b: int| 0 <= a < b < strings_view(order@).len() implies strings_view(order@)[a]
                            != strings_view(order@)[b] by {
                            if b == old_o.len() {
                                assert(old_o.contains(old_o[a]));
                            }
                        }
                        assert forall|m: int| 0 <= m < mark@.len() && #[trigger] mark@[m] implies strings_view(order@).contains(
                            sv[m]) by {
                            if m != si {
                                let p = choose|p: int| 0 <= p < old_o.len() && old_o[p] == sv[m];
                                assert(strings_view(order@)[p] == sv[m]);
                            }
                        }
                        assert forall|p: int| 0 <= p < order@.len() implies sv.contains(#[trigger] strings_view(order@)[p]) by {
                            if p < old_o.len() {
                                assert(strings_view(order@)[p] == old_o[p]);
                            } else {
                                assert(sv[si as int] == y);
                            }
                        }
                        assert forall|p: int, d: Seq<char>| 0 <= p < order@.len() && #[trigger] self.lists_dep(
                            strings_view(order@)[p], d) && sv.contains(d) implies exists|q: int|
                            0 <= q < p && q < head && strings_view(order@)[q] == d by {
                            if p < old_o.len() {
                                assert(strings_view(order@)[p] == old_o[p]);
                                let q = choose|q: int| 0 <= q < p && q < head && old_o[q] == d;
                                assert(strings_view(order@)[q] == old_o[q]);
                            } else {
                                assert(old_o.take(head as int).contains(d));
                                let q = choose|q: int| 0 <= q < head && old_o.take(head as int)[q] == d;
                                assert(strings_view(order@)[q] == old_o[q]);
                            }
                        }
                        assert forall|y2: Seq<char>| sv.contains(y2) && !strings_view(order@).contains(y2) implies (exists|d: Seq<char>|
                            #[trigger] self.lists_dep(y2, d) && sv.contains(d) && !strings_view(order@).take(head as int).contains(d))
                            || (exists|i2: int| j + 1 <= i2 < n && nm[i2] == y2 && #[trigger] self.spec_deps()[i2].contains(cur)) by {
                            if !old_o.contains(y2) {
                                if exists|i2: int| j <= i2 < n && nm[i2] == y2 && #[trigger] self.spec_deps()[i2].contains(cur) {
                                    let i2 = choose|i2: int| j <= i2 < n && nm[i2] == y2 && #[trigger] self.spec_deps()[i2].contains(cur);
                                    assert(i2 != j);
                                }
                            } else {
                                let p = choose|p: int| 0 <= p < old_o.len() && old_o[p] == y2;
                                assert(strings_view(order@)[p] == y2);
                            }
                        }
                    }
                } else {
                    proof {
                        assert forall|y2: Seq<char>| sv.contains(y2) && !strings_view(order@).contains(y2) implies (exists|d: Seq<char>|
                            #[trigger] self.lists_dep(y2, d) && sv.contains(d) && !strings_view(order@).take(head as int).contains(d))
                            || (exists|i2: int| j + 1 <= i2 < n && nm[i2] == y2 && #[trigger] self.spec_deps()[i2].contains(cur)) by {
                            if exists|i2: int| j <= i2 < n && nm[i2] == y2 && #[trigger] self.spec_deps()[i2].contains(cur) {
                                let i2 = choose|i2: int| j <= i2 < n && nm[i2] == y2 && #[trigger] self.spec_deps()[i2].contains(cur);
                                if i2 == j {
                                    assert(lists_cur);
                                    assert(pos is Some);
                                    assert(!ready);
                                }
                            }
                        }
                    }
                }
                j += 1;
            }
            proof {
                lemma_count_true_bound(mark@);
            }
        }
        proof {
            assert(strings_view(order@).take(head as int) =~= strings_view(order@));
            assert forall|p: int, d: Seq<char>| 0 <= p < order@.len() && #[trigger] self.lists_dep(strings_view(order@)[p], d)
                && sv.contains(d) implies exists|q: int| 0 <= q < p && strings_view(order@)[q] == d by {
                let q = choose|q: int| 0 <= q < p && q < head && strings_view(order@)[q] == d;
            }
        }
        order
    }
}


/// The changed paths recorded for the module `k` in `es`.
pub open spec fn pending_paths(es: Seq<(String, Vec<String>)>, k: Seq<char>) -> Set<Seq<char>> {
    Set::new(|p: Seq<char>| exists|i: int| 0 <= i < es.len() && es[i].0@ == k && #[trigger] strings_view(es[i].1@).contains(p))
}

/// The changes recorded in `es`: each module with changes, and its changed paths.
pub open spec fn pending_view(es: Seq<(String, Vec<String>)>) -> Map<Seq<char>, Set<Seq<char>>> {
    Map::new(|k: Seq<char>| exists|i: int| 0 <= i < es.len() && #[trigger] es[i].0@ == k, |k: Seq<char>| pending_paths(es, k))
}

/// The record of changes `before` with `path` of `module` added.
pub open spec fn recorded(before: Map<Seq<char>, Set<Seq<char>>>, module: Seq<char>, path: Seq<char>) -> Map<
    Seq<char>,
    Set<Seq<char>>,
> {
    before.insert(
        module,
        (if before.contains_key(module) {
            before[module]
        } else {
            Set::empty()
        }).insert(path),
    )
}

/// What draining the record `before` does: it leaves `after` empty and hands out `r`, which
/// lists each module of `before` once, with its changed paths.
pub open spec fn drain_outcome(
    before: Map<Seq<char>, Set<Seq<char>>>,
    after: Map<Seq<char>, Set<Seq<char>>>,
    r: Seq<(String, Vec<String>)>,
) -> bool {
    &&& after == Map::<Seq<char>, Set<Seq<char>>>::empty()
    &&& pending_view(r) == before
    &&& forall|a: int, b: int| 0 <= a < b < r.len() ==> r[a].0@ != r[b].0@
}

/// The changed files of a workspace that are waiting for a rebuild, by module.
pub struct PendingChanges {
    per_module: Vec<(String, Vec<String>)>,
}

impl PendingChanges {
    /// The recorded changes: each module with changes, and its changed paths.
    pub closed spec fn view(&self) -> Map<Seq<char>, Set<Seq<char>>> {
        pending_view(self.per_module@)
    }

    /// No module is recorded twice.
    pub closed spec fn wf(&self) -> bool {
        forall|a: int, b: int| 0 <= a < b < self.per_module@.len() ==> self.per_module@[a].0@ != self.per_module@[b].0@
    }

    /// Nothing recorded.
    pub fn new() -> (p: Self)
        ensures
            p.wf(),
            p@ == Map::<Seq<char>, Set<Seq<char>>>::empty(),
    {
        let p = Self { per_module: Vec::new() };
        assert(p@ =~= Map::<Seq<char>, Set<Seq<char>>>::empty());
        p
    }

    /// Records that `path` of `module` changed.
    pub fn add(&mut self, module: String, path: String)
        requires
            old(self).wf(),
        ensures
            final(self).wf(),
            final(self)@ == recorded(old(self)@, module@, path@),
    {
        let ghost es = self.per_module@;
        let found = self.position_of(module.as_str());
        let k = match found {
            Some(k) => k,
            None => self.per_module.len(),
        };
        let ghost target = old(self)@.insert(
            module@,
            (if old(self)@.contains_key(module@) {
                old(self)@[module@]
            } else {
                Set::empty()
            }).insert(path@),
        );
        if k < self.per_module.len() {
            // The module is recorded at `k`: add the path to its list unless it is there.
            let mut v: Vec<(String, Vec<String>)> = Vec::new();
            std::mem::swap(&mut v, &mut self.per_module);
            assert(v@ == es);
            let mut entry = v.remove(k);
            assert(entry == es[k as int]);
            let ghost paths0 = strings_view(entry.1@);
            if !vec_contains(&entry.1, path.as_str()) {
                entry.1.push(path);
                assert(strings_view(entry.1@) =~= paths0.push(path@));
            }
            let ghost paths1 = strings_view(entry.1@);
            assert(paths1.to_set() =~= paths0.to_set().insert(path@)) by {
                broadcast use vstd::seq_lib::group_seq_properties;
                assert forall|p: Seq<char>| paths1.contains(p) <==> (paths0.contains(p) || p == path@) by {
                    if paths1.len() > paths0.len() {
                        assert(paths1 == paths0.push(path@));
                    }
                }
            }
            let ghost new_entry = entry;
            v.insert(k, entry);
            assert(v@ =~= es.update(k as int, new_entry));
            self.per_module = v;
            proof {
                let es2 = self.per_module@;
                assert(es2.len() == es.len());
                assert forall|m: int| 0 <= m < es.len() && m != k implies es2[m] == es[m] by {}
                assert(es2[k as int].0@ == module@);
                assert(strings_view(es2[k as int].1@) == paths1);
                assert(old(self)@.contains_key(module@)) by {
                    assert(es[k as int].0@ == module@);
                }
                assert forall|kk: Seq<char>| #![auto] pending_view(es2).contains_key(kk) <==> target.contains_key(kk) by {
                    if pending_view(es2).contains_key(kk) {
                        let m = choose|m: int| 0 <= m < es2.len() && #[trigger] es2[m].0@ == kk;
                        if m != k {
                            assert(es[m].0@ == kk);
                        }
                    }
                    if old(self)@.contains_key(kk) {
                        let m = choose|m: int| 0 <= m < es.len() && #[trigger] es[m].0@ == kk;
                        if m != k {
                            assert(es2[m].0@ == kk);
                        } else {
                            assert(es2[k as int].0@ == kk);
                        }
                    }
                }
                assert forall|kk: Seq<char>| #![auto] pending_view(es2).contains_key(kk) implies pending_view(es2)[kk]
                    == target[kk] by {
                    if kk == module@ {
                        assert forall|p: Seq<char>| pending_paths(es2, kk).contains(p) <==> target[kk].contains(p) by {
                            if pending_paths(es2, kk).contains(p) {
                                let m = choose|m: int| 0 <= m < es2.len() && es2[m].0@ == kk && #[trigger] strings_view(es2[m].1@).contains(p);
                                if m == k {
                                    if p != path@ {
                                        assert(paths1.to_set().contains(p));
                                        assert(paths0.contains(p));
                                        assert(strings_view(es[k as int].1@).contains(p));
                                    }
                                } else {
                                    assert(es[m].0@ == module@);
                                    assert(false);
                                }
                            }
                            if target[kk].contains(p) {
                                if p == path@ {
                                    assert(paths1.to_set().contains(p));
                                    assert(strings_view(es2[k as int].1@).contains(p));
                                } else {
                                    let m = choose|m: int| 0 <= m < es.len() && es[m].0@ == kk && #[trigger] strings_view(es[m].1@).contains(p);
                                    if m != k {
                                        assert(false);
                                    }
                                    assert(paths0.to_set().contains(p));
                                    assert(paths1.to_set().contains(p));
                                    assert(strings_view(es2[k as int].1@).contains(p));
                                }
                            }
                        }
                        assert(pending_paths(es2, kk) =~= target[kk]);
                    } else {
                        assert forall|p: Seq<char>| pending_paths(es2, kk).contains(p) <==> pending_paths(es, kk).contains(p) by {
                            if pending_paths(es2, kk).contains(p) {
                                let m = choose|m: int| 0 <= m < es2.len() && es2[m].0@ == kk && #[trigger] strings_view(es2[m].1@).contains(p);
                                assert(m != k);
                                assert(strings_view(es[m].1@).contains(p));
                            }
                            if pending_paths(es, kk).contains(p) {
                                let m = choose|m: int| 0 <= m < es.len() && es[m].0@ == kk && #[trigger] strings_view(es[m].1@).contains(p);
                                assert(m != k);
                                assert(strings_view(es2[m].1@).contains(p));
                            }
                        }
                        assert(pending_paths(es2, kk) =~= pending_paths(es, kk));
                    }
                }
                assert(pending_view(es2) =~= target);
            }
        } else {
            let mut paths: Vec<String> = Vec::new();
            paths.push(path);
            let ghost pv = strings_view(paths@);
            assert(pv =~= seq![path@]);
            self.per_module.push((module, paths));
            proof {
                let es2 = self.per_module@;
                assert(es2 == es.push((module, paths)));
                assert(!old(self)@.contains_key(module@)) by {
                    if old(self)@.contains_key(module@) {
                        let m = choose|m: int| 0 <= m < es.len() && #[trigger] es[m].0@ == module@;
                    }
                }
                assert forall|kk: Seq<char>| #![auto] pending_view(es2).contains_key(kk) <==> target.contains_key(kk) by {
                    if pending_view(es2).contains_key(kk) {
                        let m = choose|m: int| 0 <= m < es2.len() && #[trigger] es2[m].0@ == kk;
                        if m < es.len() {
                            assert(es[m].0@ == kk);
                        }
                    }
                    if old(self)@.contains_key(kk) {
                        let m = choose|m: int| 0 <= m < es.len() && #[trigger] es[m].0@ == kk;
                        assert(es2[m].0@ == kk);
                    }
                    if kk == module@ {
                        assert(es2[es.len() as int].0@ == kk);
                    }
                }
                assert forall|kk: Seq<char>| #![auto] pending_view(es2).contains_key(kk) implies pending_view(es2)[kk]
                    == target[kk] by {
                    assert forall|p: Seq<char>| pending_paths(es2, kk).contains(p) <==> target[kk].contains(p) by {
                        if pending_paths(es2, kk).contains(p) {
                            let m = choose|m: int| 0 <= m < es2.len() && es2[m].0@ == kk && #[trigger] strings_view(es2[m].1@).contains(p);
                            if m < es.len() {
                                assert(strings_view(es[m].1@).contains(p));
                                assert(kk != module@);
                            } else {
                                assert(pv.contains(p));
                                assert(p == path@);
                            }
                        }
                        if target[kk].contains(p) {
                            if kk == module@ {
                                assert(p == path@);
                                assert(pv[0] == path@);
                                assert(strings_view(es2[es.len() as int].1@).contains(p));
                            } else {
                                let m = choose|m: int| 0 <= m < es.len() && es[m].0@ == kk && #[trigger] strings_view(es[m].1@).contains(p);
                                assert(strings_view(es2[m].1@).contains(p));
                            }
                        }
                    }
                    assert(pending_paths(es2, kk) =~= target[kk]);
                }
                assert(pending_view(es2) =~= target);
            }
        }
    }

    /// The position of the entry of `module`.
    fn position_of(&self, module: &str) -> (r: Option<usize>)
        ensures
            match r {
                Some(k) => k < self.per_module@.len() && self.per_module@[k as int].0@ == module@,
                None => forall|m: int| 0 <= m < self.per_module@.len() ==> self.per_module@[m].0@ != module@,
            },
    {
        let mut k: usize = 0;
        while k < self.per_module.len()
            invariant
                k <= self.per_module@.len(),
                forall|m: int| 0 <= m < k ==> self.per_module@[m].0@ != module@,
            decreases self.per_module@.len() - k,
        {
            if str_equal(self.per_module[k].0.as_str(), module) {
                return Some(k);
            }
            k += 1;
        }
        None
    }

    /// Whether nothing is recorded.
    pub fn is_empty(&self) -> (r: bool)
        ensures
            r == (self@ == Map::<Seq<char>, Set<Seq<char>>>::empty()),
    {
        let r = self.per_module.len() == 0;
        proof {
            if r {
                assert(self@ =~= Map::<Seq<char>, Set<Seq<char>>>::empty());
            } else {
                assert(self@.contains_key(self.per_module@[0].0@));
            }
        }
        r
    }

    /// Takes every recorded change, leaving nothing recorded: each module with changes (once)
    /// and its changed paths.
    pub fn drain(&mut self) -> (r: Vec<(String, Vec<String>)>)
        requires
            old(self).wf(),
        ensures
            final(self).wf(),
            drain_outcome(old(self)@, final(self)@, r@),
    {
        let mut taken: Vec<(String, Vec<String>)> = Vec::new();
        std::mem::swap(&mut taken, &mut self.per_module);
        assert(self@ =~= Map::<Seq<char>, Set<Seq<char>>>::empty());
        taken
    }
}


/// The kinds of file-system events a watcher reports.
#[derive(Debug, Clone, Copy, PartialEq, Eq, Structural)]
pub enum WatchEventKind {
    Create,
    Modify,
    Remove,
    Other,
}

impl ModuleGraph {
    /// The first module (in the order they were added) whose directory holds `path`.
    pub fn module_for_path(&self, path: &str) -> (r: Option<String>)
        requires
            self.wf(),
        ensures
            match r {
                Some(name) => exists|j: int| 0 <= j < self.spec_names().len() && self.spec_names()[j] == name@
                    && crate::paths::path_has_prefix(path@, self.spec_dirs()[j])
                    && forall|m: int| 0 <= m < j ==> !crate::paths::path_has_prefix(path@, #[trigger] self.spec_dirs()[m]),
                None => forall|m: int| 0 <= m < self.spec_names().len() ==> !crate::paths::path_has_prefix(
                    path@, #[trigger] self.spec_dirs()[m]),
            },
    {
        let mut j: usize = 0;
        while j < self.dirs.len()
            invariant
                self.wf(),
                j <= self.dirs@.len(),
                forall|m: int| 0 <= m < j ==> !crate::paths::path_has_prefix(path@, #[trigger] self.spec_dirs()[m]),
            decreases self.dirs@.len() - j,
        {
            assert(self.spec_dirs()[j as int] == self.dirs@[j as int]@);
            if crate::paths::path_starts_with(path, self.dirs[j].as_str()) {
                let r = to_owned_string(self.names[j].as_str());
                assert(self.spec_names()[j as int] == r@);
                return Some(r);
            }
            j += 1;
        }
        None
    }

    /// Records the paths of a watcher event against the modules that hold them.  Only
    /// creations, modifications and removals count.
    pub fn apply_watch_event(&self, kind: WatchEventKind, paths: &Vec<String>, pending: &mut PendingChanges)
        requires
            self.wf(),
            old(pending).wf(),
        ensures
            final(pending).wf(),
            kind is Other ==> final(pending)@ == old(pending)@,
            forall|k: Seq<char>| #[trigger] old(pending)@.contains_key(k) ==> final(pending)@.contains_key(k)
                && old(pending)@[k].subset_of(final(pending)@[k]),
            forall|k: Seq<char>| #[trigger] final(pending)@.contains_key(k) && !old(pending)@.contains_key(k) ==> self.has(k),
            forall|k: Seq<char>, p: Seq<char>| #[trigger] final(pending)@.contains_key(k) && #[trigger] final(pending)@[k].contains(p)
                ==> (old(pending)@.contains_key(k) && old(pending)@[k].contains(p)) || (!(kind is Other)
                && strings_view(paths@).contains(p) && self.owner_of(p) == Some(k)),
            !(kind is Other) ==> forall|p: Seq<char>| #[trigger] strings_view(paths@).contains(p) && self.owner_of(p) is Some
                ==> final(pending)@.contains_key(self.owner_of(p)->0) && final(pending)@[self.owner_of(p)->0].contains(p),
    {
        if kind == WatchEventKind::Other {
            return;
        }
        let ghost pv = strings_view(paths@);
        let mut i: usize = 0;
        while i < paths.len()
            invariant
                self.wf(),
                pending.wf(),
                pv == strings_view(paths@),
                i <= paths@.len(),
                !(kind is Other),
                forall|k: Seq<char>| #[trigger] old(pending)@.contains_key(k) ==> pending@.contains_key(k)
                    && old(pending)@[k].subset_of(pending@[k]),
                forall|k: Seq<char>| #[trigger] pending@.contains_key(k) && !old(pending)@.contains_key(k) ==> self.has(k),
                forall|k: Seq<char>, p: Seq<char>| #[trigger] pending@.contains_key(k) && #[trigger] pending@[k].contains(p)
                    ==> (old(pending)@.contains_key(k) && old(pending)@[k].contains(p)) || (pv.contains(p)
                    && self.owner_of(p) == Some(k)),
                forall|m: int| 0 <= m < i && #[trigger] self.owner_of(pv[m]) is Some ==> pending@.contains_key(
                    self.owner_of(pv[m])->0) && pending@[self.owner_of(pv[m])->0].contains(pv[m]),
            decreases paths@.len() - i,
        {
            let ghost p = pv[i as int];
            match self.module_for_path(paths[i].as_str()) {
                Some(name) => {
                    proof {
                        self.lemma_owner_of(p, name@);
                    }
                    let ghost before = pending@;
                    pending.add(name, to_owned_string(paths[i].as_str()));
                    proof {
                        assert(pv.contains(p));
                        assert forall|m: int| 0 <= m < i + 1 && #[trigger] self.owner_of(pv[m]) is Some implies pending@.contains_key(
                            self.owner_of(pv[m])->0) && pending@[self.owner_of(pv[m])->0].contains(pv[m]) by {
                            if m < i {
                                assert(before.contains_key(self.owner_of(pv[m])->0));
                            }
                        }
                    }
                },
                None => {
                    proof {
                        self.lemma_owner_of_none(p);
                    }
                },
            }
            i += 1;
        }
    }

    /// The module that owns `path`: the first whose directory holds it.
    pub open spec fn owner_of(&self, path: Seq<char>) -> Option<Seq<char>> {
        if exists|j: int| 0 <= j < self.spec_names().len() && crate::paths::path_has_prefix(path, #[trigger] self.spec_dirs()[j]) {
            let j = choose|j: int| 0 <= j < self.spec_names().len() && crate::paths::path_has_prefix(path, #[trigger] self.spec_dirs()[j])
                && forall|m: int| 0 <= m < j ==> !crate::paths::path_has_prefix(path, #[trigger] self.spec_dirs()[m]);
            Some(self.spec_names()[j])
        } else {
            None
        }
    }

    /// The module found by [`ModuleGraph::module_for_path`] is the owner.
    proof fn lemma_owner_of(&self, path: Seq<char>, name: Seq<char>)
        requires
            self.wf(),
            exists|j: int| 0 <= j < self.spec_names().len() && self.spec_names()[j] == name
                && crate::paths::path_has_prefix(path, self.spec_dirs()[j])
                && forall|m: int| 0 <= m < j ==> !crate::paths::path_has_prefix(path, #[trigger] self.spec_dirs()[m]),
        ensures
            self.owner_of(path) == Some(name),
    {
        let j = choose|j: int| 0 <= j < self.spec_names().len() && self.spec_names()[j] == name
            && crate::paths::path_has_prefix(path, self.spec_dirs()[j])
            && forall|m: int| 0 <= m < j ==> !crate::paths::path_has_prefix(path, #[trigger] self.spec_dirs()[m]);
        assert(crate::paths::path_has_prefix(path, self.spec_dirs()[j]));
        let j2 = choose|j2: int| 0 <= j2 < self.spec_names().len() && crate::paths::path_has_prefix(path, #[trigger] self.spec_dirs()[j2])
            && forall|m: int| 0 <= m < j2 ==> !crate::paths::path_has_prefix(path, #[trigger] self.spec_dirs()[m]);
        if j2 < j {
            assert(!crate::paths::path_has_prefix(path, self.spec_dirs()[j2]));
        }
        if j < j2 {
            assert(!crate::paths::path_has_prefix(path, self.spec_dirs()[j]));
        }
    }

    /// No directory holds the path: no owner.
    proof fn lemma_owner_of_none(&self, path: Seq<char>)
        requires
            forall|m: int| 0 <= m < self.spec_names().len() ==> !crate::paths::path_has_prefix(path, #[trigger] self.spec_dirs()[m]),
        ensures
            self.owner_of(path) is None,
    {
    }
}


/// The module names of the entries of a change list.
pub open spec fn entry_names<T>(es: Seq<(String, T)>) -> Seq<Seq<char>> {
    es.map_values(|e: (String, T)| e.0@)
}

/// A copy of a list of strings.
pub fn copy_strings(v: &Vec<String>) -> (r: Vec<String>)
    ensures
        strings_view(r@) == strings_view(v@),
{
    let mut r: Vec<String> = Vec::new();
    let mut k: usize = 0;
    while k < v.len()
        invariant
            k <= v@.len(),
            strings_view(r@) == strings_view(v@).take(k as int),
        decreases v@.len() - k,
    {
        let ghost old_r = r@;
        r.push(to_owned_string(v[k].as_str()));
        assert(strings_view(r@) =~= strings_view(old_r).push(v@[k as int]@));
        assert(strings_view(r@) =~= strings_view(v@).take(k + 1));
        k += 1;
    }
    assert(strings_view(v@).take(k as int) =~= strings_view(v@));
    r
}

/// The changed paths recorded for `name` (the first entry with that name), if any.
fn changed_paths(changed: &Vec<(String, Vec<String>)>, name: &str) -> (r: Option<Vec<String>>)
    ensures
        match r {
            Some(v) => exists|i: int| 0 <= i < changed@.len() && changed@[i].0@ == name@
                && strings_view(changed@[i].1@) == strings_view(v@)
                && forall|i2: int| 0 <= i2 < i ==> changed@[i2].0@ != name@,
            None => forall|i: int| 0 <= i < changed@.len() ==> changed@[i].0@ != name@,
        },
{
    let mut i: usize = 0;
    while i < changed.len()
        invariant
            i <= changed@.len(),
            forall|i2: int| 0 <= i2 < i ==> changed@[i2].0@ != name@,
        decreases changed@.len() - i,
    {
        if str_equal(changed[i].0.as_str(), name) {
            return Some(copy_strings(&changed[i].1));
        }
        i += 1;
    }
    None
}

impl ModuleGraph {
    /// What to rebuild after the changes `changed` (module, changed paths): the changed
    /// modules and everything that depends on them, in build order, each with the changed
    /// paths to refresh first when it changed itself.
    pub fn plan_rebuild(&self, changed: &Vec<(String, Vec<String>)>) -> (plan: Vec<(String, Option<Vec<String>>)>)
        requires
            self.wf(),
        ensures
            exists|c: Seq<Seq<char>>| self.closure_ok(entry_names(changed@), c) && self.order_ok(c, entry_names(plan@)),
            forall|p: int| 0 <= p < plan@.len() ==> match #[trigger] plan@[p].1 {
                Some(v) => exists|i: int| 0 <= i < changed@.len() && changed@[i].0@ == plan@[p].0@
                    && strings_view(changed@[i].1@) == strings_view(v@)
                    && forall|i2: int| 0 <= i2 < i ==> changed@[i2].0@ != plan@[p].0@,
                None => forall|i: int| 0 <= i < changed@.len() ==> changed@[i].0@ != plan@[p].0@,
            },
    {
        let mut keys: Vec<String> = Vec::new();
        let mut k: usize = 0;
        while k < changed.len()
            invariant
                k <= changed@.len(),
                strings_view(keys@) == entry_names(changed@).take(k as int),
            decreases changed@.len() - k,
        {
            let ghost old_k = keys@;
            keys.push(to_owned_string(changed[k].0.as_str()));
            assert(strings_view(keys@) =~= strings_view(old_k).push(changed@[k as int].0@));
            assert(strings_view(keys@) =~= entry_names(changed@).take(k + 1));
            k += 1;
        }
        assert(entry_names(changed@).take(k as int) =~= entry_names(changed@));
        let affected = self.affected_closure(&keys);
        let order = self.topological_order_of(&affected);
        let mut plan: Vec<(String, Option<Vec<String>>)> = Vec::new();
        let mut p: usize = 0;
        while p < order.len()
            invariant
                p <= order@.len(),
                entry_names(plan@) == strings_view(order@).take(p as int),
                forall|q: int| 0 <= q < plan@.len() ==> match #[trigger] plan@[q].1 {
                    Some(v) => exists|i: int| 0 <= i < changed@.len() && changed@[i].0@ == plan@[q].0@
                        && strings_view(changed@[i].1@) == strings_view(v@)
                        && forall|i2: int| 0 <= i2 < i ==> changed@[i2].0@ != plan@[q].0@,
                    None => forall|i: int| 0 <= i < changed@.len() ==> changed@[i].0@ != plan@[q].0@,
                },
            decreases order@.len() - p,
        {
            let name = to_owned_string(order[p].as_str());
            let found = changed_paths(changed, name.as_str());
            let ghost old_plan = plan@;
            plan.push((name, found));
            proof {
                assert(entry_names(plan@) =~= entry_names(old_plan).push(order@[p as int]@));
                assert(entry_names(plan@) =~= strings_view(order@).take(p + 1));
                assert forall|q: int| 0 <= q < plan@.len() implies match #[trigger] plan@[q].1 {
                    Some(v) => exists|i: int| 0 <= i < changed@.len() && changed@[i].0@ == plan@[q].0@
                        && strings_view(changed@[i].1@) == strings_view(v@)
                        && forall|i2: int| 0 <= i2 < i ==> changed@[i2].0@ != plan@[q].0@,
                    None => forall|i: int| 0 <= i < changed@.len() ==> changed@[i].0@ != plan@[q].0@,
                } by {
                    if q < old_plan.len() {
                        assert(plan@[q] == old_plan[q]);
                    }
                }
            }
            p += 1;
        }
        assert(strings_view(order@).take(p as int) =~= strings_view(order@));
        plan
    }
}


/// A changed path that was added is handed out by the next drain, under its module,
/// together with everything recorded before, and the drain leaves nothing recorded: for a
/// record `p0`, the record `p1` that [`PendingChanges::add`] makes of it, and the record
/// `p2` and list `r` that [`PendingChanges::drain`] then makes of `p1`.
pub proof fn law_added_path_is_drained(
    p0: PendingChanges,
    p1: PendingChanges,
    p2: PendingChanges,
    module: Seq<char>,
    path: Seq<char>,
    r: Seq<(String, Vec<String>)>,
)
    requires
        p1@ == recorded(p0@, module, path),
        drain_outcome(p1@, p2@, r),
    ensures
        pending_view(r).contains_key(module),
        pending_view(r)[module].contains(path),
        forall|k: Seq<char>, p: Seq<char>| #[trigger] p0@.contains_key(k) && #[trigger] p0@[k].contains(p)
            ==> pending_view(r).contains_key(k) && pending_view(r)[k].contains(p),
        p2@ == Map::<Seq<char>, Set<Seq<char>>>::empty(),
{
}

/// Whether `rank` ranks the members of `subset` below the members that depend on them:
/// a witness that the dependencies inside `subset` hold no cycle.
pub open spec fn ranks_dependencies(g: ModuleGraph, subset: Seq<Seq<char>>, rank: spec_fn(Seq<char>) -> nat) -> bool {
    forall|y: Seq<char>, d: Seq<char>|
        subset.contains(y) && subset.contains(d) && #[trigger] g.lists_dep(y, d) ==> #[trigger] rank(d) < rank(y)
}

/// When the dependencies inside `subset` hold no cycle (some ranking puts every module
/// above the members it depends on), a build order for `subset` that meets `order_ok`, as
/// the one [`ModuleGraph::topological_order_of`] returns does, holds every member.
pub proof fn law_acyclic_subset_fully_ordered(
    g: ModuleGraph,
    subset: Seq<Seq<char>>,
    order: Seq<Seq<char>>,
    rank: spec_fn(Seq<char>) -> nat,
)
    requires
        g.order_ok(subset, order),
        ranks_dependencies(g, subset, rank),
    ensures
        forall|y: Seq<char>| subset.contains(y) ==> #[trigger] order.contains(y),
{
    assert forall|y: Seq<char>| subset.contains(y) implies #[trigger] order.contains(y) by {
        lemma_ordered_up_to(g, subset, order, rank, rank(y), y);
    }
}

proof fn lemma_ordered_up_to(
    g: ModuleGraph,
    subset: Seq<Seq<char>>,
    order: Seq<Seq<char>>,
    rank: spec_fn(Seq<char>) -> nat,
    n: nat,
    y: Seq<char>,
)
    requires
        g.order_ok(subset, order),
        ranks_dependencies(g, subset, rank),
        subset.contains(y),
        rank(y) <= n,
    ensures
        order.contains(y),
    decreases n,
{
    if !order.contains(y) {
        let d = choose|d: Seq<char>| #[trigger] g.lists_dep(y, d) && subset.contains(d) && !order.contains(d);
        assert(rank(d) < rank(y));
        lemma_ordered_up_to(g, subset, order, rank, (n - 1) as nat, d);
    }
}

} // verus!
