use vstd::prelude::*;

use crate::error::Error;
use crate::text::{chars_equal, split_chars, str_chars, to_owned_string, u64_to_decimal};

verus! {

/// A classmap: a tree whose inner nodes map names to subtrees and whose leaves hold the
/// generated class name for the path that leads to them.
///
/// The entries of an inner node are kept sorted by name, without repeats, so that they are
/// listed in the order of their names.
#[derive(Debug)]
pub struct Mapping {
    inner: MapInner,
}

#[derive(Debug)]
enum MapInner {
    Leaf(String),
    Node(Vec<(String, Mapping)>),
}

/// Strict lexicographic order on character sequences, by code point (the order of `str`).
pub open spec fn key_lt(a: Seq<char>, b: Seq<char>) -> bool
    decreases a.len(),
{
    if a.len() == 0 {
        b.len() > 0
    } else if b.len() == 0 {
        false
    } else if a[0] != b[0] {
        (a[0] as u32) < (b[0] as u32)
    } else {
        key_lt(a.drop_first(), b.drop_first())
    }
}

/// Keys listed in strictly increasing order.
pub open spec fn keys_sorted(es: Seq<(String, Mapping)>) -> bool {
    forall|i: int, j: int| 0 <= i < j < es.len() ==> key_lt(#[trigger] es[i].0@, #[trigger] es[j].0@)
}

/// The subtree stored under `key` among `es` (the first entry with that key).
pub open spec fn find_entry(es: Seq<(String, Mapping)>, key: Seq<char>) -> Option<Mapping>
    decreases es.len(),
{
    if es.len() == 0 {
        None
    } else if es[0].0@ == key {
        Some(es[0].1)
    } else {
        find_entry(es.drop_first(), key)
    }
}

/// Why a classmap path could not be resolved.
#[derive(Debug, Clone)]
pub enum ResolveError {
    /// The path named something that is not in the classmap.
    NotFound { matched: usize, path: Vec<String> },
    /// The path does not end at a leaf.
    NotALeaf { path: Vec<String> },
}

/// What a walk along a path through a classmap ends in.
pub enum LookupOutcome {
    /// The path ends at a leaf with this value.
    Found(Seq<char>),
    /// Some name along the path is not present.
    Missing,
    /// The walk met a leaf before the path ended, or the path ended at an inner node;
    /// the number is the length of the path prefix that the error reports.
    NotALeaf(nat),
}

impl Mapping {
    #[verifier::type_invariant]
    spec fn inv(self) -> bool {
        match self.inner {
            MapInner::Leaf(_) => true,
            MapInner::Node(v) => keys_sorted(v@),
        }
    }

    /// The value of a leaf; `None` for an inner node.
    pub closed spec fn leaf_value(self) -> Option<Seq<char>> {
        match self.inner {
            MapInner::Leaf(v) => Some(v@),
            MapInner::Node(_) => None,
        }
    }

    /// The entries of an inner node in their order; empty for a leaf.
    pub closed spec fn entries(self) -> Seq<(String, Mapping)> {
        match self.inner {
            MapInner::Leaf(_) => Seq::empty(),
            MapInner::Node(v) => v@,
        }
    }

    /// Whether this is an inner node.
    pub open spec fn is_node(self) -> bool {
        self.leaf_value() is None
    }

    /// The subtree under `key`, if this is an inner node that has one.
    pub open spec fn child(self, key: Seq<char>) -> Option<Mapping> {
        find_entry(self.entries(), key)
    }

    /// An inner node without entries.
    pub fn empty() -> (m: Self)
        ensures
            m.is_node(),
            m.entries().len() == 0,
    {
        Mapping { inner: MapInner::Node(Vec::new()) }
    }

    /// A leaf holding `value`.
    pub fn leaf(value: String) -> (m: Self)
        ensures
            m.leaf_value() == Some(value@),
            m.entries().len() == 0,
    {
        Mapping { inner: MapInner::Leaf(value) }
    }
}

impl Mapping {
    /// The value of a leaf; `None` for an inner node.
    pub fn leaf_text(&self) -> (r: Option<&str>)
        ensures
            match r {
                Some(v) => self.leaf_value() == Some(v@),
                None => self.leaf_value() is None,
            },
    {
        match &self.inner {
            MapInner::Leaf(v) => Some(v.as_str()),
            MapInner::Node(_) => None,
        }
    }

    /// The entries of an inner node, sorted by name; empty for a leaf.
    pub fn children(&self) -> (r: &[(String, Mapping)])
        ensures
            r@ == self.entries(),
    {
        match &self.inner {
            MapInner::Leaf(_) => {
                let e: &[(String, Mapping)] = &[];
                assert(e@ =~= Seq::<(String, Mapping)>::empty());
                e
            },
            MapInner::Node(v) => v.as_slice(),
        }
    }
}

impl Default for Mapping {
    fn default() -> (m: Self)
        ensures
            m.is_node(),
            m.entries().len() == 0,
    {
        Self::empty()
    }
}


/// The path as character sequences.
pub open spec fn path_view(path: Seq<&str>) -> Seq<Seq<char>> {
    path.map_values(|s: &str| s@)
}

/// Owned strings as character sequences.
pub open spec fn strings_view(v: Seq<String>) -> Seq<Seq<char>> {
    v.map_values(|s: String| s@)
}

/// `s` with every `-` replaced by `_`.
pub open spec fn dash_to_underscore(s: Seq<char>) -> Seq<char> {
    s.map_values(|c: char| if c == '-' { '_' } else { c })
}

/// The child that a classmap step reaches for `key`: the entry named `key`, or, when
/// `dashes` is set and there is none, the entry named `key` with dashes read as underscores.
pub open spec fn step(m: Mapping, key: Seq<char>, dashes: bool) -> Option<Mapping> {
    match m.child(key) {
        Some(c) => Some(c),
        None => if dashes {
            m.child(dash_to_underscore(key))
        } else {
            None
        },
    }
}

/// The outcome of walking `path[i..]` from `m`.
pub open spec fn walk(m: Mapping, path: Seq<Seq<char>>, i: int, dashes: bool) -> LookupOutcome
    decreases path.len() - i,
{
    if i >= path.len() {
        match m.leaf_value() {
            Some(v) => LookupOutcome::Found(v),
            None => LookupOutcome::NotALeaf(path.len() as nat),
        }
    } else if m.leaf_value() is Some {
        LookupOutcome::NotALeaf(i as nat)
    } else {
        match step(m, path[i], dashes) {
            None => LookupOutcome::Missing,
            Some(c) => walk(c, path, i + 1, dashes),
        }
    }
}

/// How a lookup result reports an outcome for `path`.
pub open spec fn lookup_reports(
    r: Result<Option<&str>, Error>,
    outcome: LookupOutcome,
    path: Seq<Seq<char>>,
) -> bool {
    match outcome {
        LookupOutcome::Found(v) => r matches Ok(Some(s)) && s@ == v,
        LookupOutcome::Missing => r matches Ok(None),
        LookupOutcome::NotALeaf(k) => r matches Err(Error::Classmap(ResolveError::NotALeaf { path: p }))
            && strings_view(p@) == path.take(k as int),
    }
}

/// Owned copies of the first `k` strings of `path`.
fn prefix_strings(path: &[&str], k: usize) -> (v: Vec<String>)
    requires
        k <= path@.len(),
    ensures
        strings_view(v@) == path_view(path@).take(k as int),
{
    let mut v: Vec<String> = Vec::new();
    let mut i: usize = 0;
    while i < k
        invariant
            i <= k <= path@.len(),
            strings_view(v@) == path_view(path@).take(i as int),
        decreases k - i,
    {
        let ghost old_v = v@;
        v.push(to_owned_string(path[i]));
        assert(strings_view(v@) =~= strings_view(old_v).push(path@[i as int]@));
        assert(path_view(path@).take(i + 1) =~= path_view(path@).take(i as int).push(path@[i as int]@));
        i += 1;
    }
    v
}

/// Owned copies of the first `k` character sequences of `path`.
fn prefix_char_strings(path: &Vec<Vec<char>>, k: usize) -> (v: Vec<String>)
    requires
        k <= path@.len(),
    ensures
        strings_view(v@) == chars_view(path@).take(k as int),
{
    let mut v: Vec<String> = Vec::new();
    let mut i: usize = 0;
    while i < k
        invariant
            i <= k <= path@.len(),
            strings_view(v@) == chars_view(path@).take(i as int),
        decreases k - i,
    {
        let ghost old_v = v@;
        v.push(crate::text::string_from_chars(path[i].as_slice()));
        assert(strings_view(v@) =~= strings_view(old_v).push(path@[i as int]@));
        assert(chars_view(path@).take(i + 1) =~= chars_view(path@).take(i as int).push(path@[i as int]@));
        i += 1;
    }
    v
}

/// Vectors of characters as character sequences.
pub open spec fn chars_view(v: Seq<Vec<char>>) -> Seq<Seq<char>> {
    v.map_values(|s: Vec<char>| s@)
}

/// Position of the entry named `key` in `v`, if any.
fn find_key(v: &Vec<(String, Mapping)>, key: &[char]) -> (r: Option<usize>)
    ensures
        match r {
            Some(j) => j < v@.len() && find_entry(v@, key@) == Some(v@[j as int].1),
            None => find_entry(v@, key@) is None,
        },
{
    let mut j: usize = 0;
    assert(v@.skip(0) =~= v@);
    while j < v.len()
        invariant
            j <= v@.len(),
            find_entry(v@, key@) == find_entry(v@.skip(j as int), key@),
        decreases v@.len() - j,
    {
        assert(v@.skip(j as int).drop_first() =~= v@.skip(j + 1));
        if chars_equal(&str_chars(v[j].0.as_str()), key) {
            return Some(j);
        }
        j += 1;
    }
    None
}

impl Mapping {
    /// Follows `path` from the root.  `Ok(Some(value))` when it ends at a leaf, `Ok(None)`
    /// when a name along it is missing, and a `NotALeaf` error, carrying the path walked,
    /// when it meets a leaf too early or ends at an inner node.
    pub fn lookup(&self, path: &[&str]) -> (r: Result<Option<&str>, Error>)
        ensures
            lookup_reports(r, walk(*self, path_view(path@), 0, false), path_view(path@)),
    {
        let ghost pv = path_view(path@);
        let mut current: &Mapping = self;
        let mut i: usize = 0;
        while i < path.len()
            invariant
                i <= path@.len(),
                pv == path_view(path@),
                walk(*self, pv, 0, false) == walk(*current, pv, i as int, false),
            decreases path@.len() - i,
        {
            match &current.inner {
                MapInner::Leaf(_) => {
                    return Err(Error::Classmap(ResolveError::NotALeaf { path: prefix_strings(path, i) }));
                },
                MapInner::Node(v) => {
                    let key = str_chars(path[i]);
                    match find_key(v, key.as_slice()) {
                        Some(j) => {
                            current = &v[j].1;
                        },
                        None => {
                            return Ok(None);
                        },
                    }
                },
            }
            i += 1;
        }
        match &current.inner {
            MapInner::Leaf(value) => Ok(Some(value.as_str())),
            MapInner::Node(_) => Err(Error::Classmap(ResolveError::NotALeaf { path: prefix_strings(path, path.len()) })),
        }
    }
}

/// `key_lt` is irreflexive.
pub proof fn lemma_key_lt_irreflexive(a: Seq<char>)
    ensures
        !key_lt(a, a),
    decreases a.len(),
{
    if a.len() > 0 {
        lemma_key_lt_irreflexive(a.drop_first());
    }
}

/// `key_lt` is transitive.
pub proof fn lemma_key_lt_transitive(a: Seq<char>, b: Seq<char>, c: Seq<char>)
    requires
        key_lt(a, b),
        key_lt(b, c),
    ensures
        key_lt(a, c),
    decreases a.len(),
{
    if a.len() > 0 && b.len() > 0 && c.len() > 0 && a[0] == b[0] && b[0] == c[0] {
        lemma_key_lt_transitive(a.drop_first(), b.drop_first(), c.drop_first());
    }
}

/// Any two keys are equal or ordered one way or the other, and not both ways.
pub proof fn lemma_key_lt_total(a: Seq<char>, b: Seq<char>)
    ensures
        key_lt(a, b) || a == b || key_lt(b, a),
        !(key_lt(a, b) && key_lt(b, a)),
    decreases a.len(),
{
    if a.len() > 0 && b.len() > 0 {
        if a[0] != b[0] {
            let x = a[0] as u32;
            let y = b[0] as u32;
            vstd::utf8::char_u32_cast(a[0], x);
            vstd::utf8::char_u32_cast(b[0], y);
        } else {
            lemma_key_lt_total(a.drop_first(), b.drop_first());
            if a.drop_first() == b.drop_first() {
                assert(a =~= seq![a[0]] + a.drop_first());
                assert(b =~= seq![b[0]] + b.drop_first());
            }
        }
    } else if a.len() == 0 && b.len() == 0 {
        assert(a =~= b);
    }
}

/// Compares two keys: negative, zero or positive as `a` is before, equal to or after `b`.
pub fn compare_keys(a: &[char], b: &[char]) -> (r: i8)
    ensures
        (r < 0) == key_lt(a@, b@),
        (r == 0) == (a@ == b@),
        (r > 0) == key_lt(b@, a@),
{
    proof {
        lemma_key_lt_total(a@, b@);
        lemma_key_lt_irreflexive(a@);
    }
    let mut i: usize = 0;
    assert(a@.skip(0) =~= a@ && b@.skip(0) =~= b@);
    loop
        invariant
            i <= a@.len(),
            i <= b@.len(),
            a@.take(i as int) == b@.take(i as int),
            key_lt(a@, b@) == key_lt(a@.skip(i as int), b@.skip(i as int)),
            key_lt(b@, a@) == key_lt(b@.skip(i as int), a@.skip(i as int)),
            key_lt(a@, b@) || a@ == b@ || key_lt(b@, a@),
            !(key_lt(a@, b@) && key_lt(b@, a@)),
            !key_lt(a@, a@),
        decreases a@.len() - i,
    {
        if i == a.len() {
            if i == b.len() {
                assert(a@ =~= a@.take(i as int));
                assert(b@ =~= b@.take(i as int));
                return 0;
            }
            return -1;
        }
        if i == b.len() {
            return 1;
        }
        let x = a[i];
        let y = b[i];
        assert(a@.skip(i as int)[0] == x && b@.skip(i as int)[0] == y);
        if x != y {
            if (x as u32) < (y as u32) {
                return -1;
            } else {
                return 1;
            }
        }
        assert(a@.skip(i as int).drop_first() =~= a@.skip(i + 1));
        assert(b@.skip(i as int).drop_first() =~= b@.skip(i + 1));
        assert(a@.take(i + 1) =~= a@.take(i as int).push(x));
        assert(b@.take(i + 1) =~= b@.take(i as int).push(y));
        i += 1;
    }
}

/// With sorted keys, `find_entry` finds the entry whose key matches, wherever it is.
pub proof fn lemma_find_entry_sorted(es: Seq<(String, Mapping)>, key: Seq<char>)
    requires
        keys_sorted(es),
    ensures
        forall|i: int| 0 <= i < es.len() && es[i].0@ == key ==> find_entry(es, key) == Some(es[i].1),
        (forall|i: int| 0 <= i < es.len() ==> es[i].0@ != key) ==> find_entry(es, key) is None,
    decreases es.len(),
{
    if es.len() > 0 {
        let rest = es.drop_first();
        assert forall|i: int, j: int| 0 <= i < j < rest.len() implies key_lt(#[trigger] rest[i].0@, #[trigger] rest[j].0@) by {
            assert(rest[i] == es[i + 1] && rest[j] == es[j + 1]);
        }
        lemma_find_entry_sorted(rest, key);
        assert forall|i: int| 0 <= i < es.len() && es[i].0@ == key implies find_entry(es, key) == Some(es[i].1) by {
            if i > 0 {
                assert(es[i] == rest[i - 1]);
                if es[0].0@ == key {
                    assert(key_lt(es[0].0@, es[i].0@));
                    lemma_key_lt_irreflexive(key);
                }
            }
        }
        if forall|i: int| 0 <= i < es.len() ==> es[i].0@ != key {
            assert forall|i: int| 0 <= i < rest.len() implies rest[i].0@ != key by {
                assert(rest[i] == es[i + 1]);
            }
        }
    }
}

/// The first position whose key is not before `key`, and whether its key is `key`.
fn insertion_point(v: &Vec<(String, Mapping)>, key: &[char]) -> (r: (usize, bool))
    ensures
        r.0 <= v@.len(),
        forall|i: int| 0 <= i < r.0 ==> key_lt(#[trigger] v@[i].0@, key@),
        r.1 ==> r.0 < v@.len() && v@[r.0 as int].0@ == key@,
        !r.1 && r.0 < v@.len() ==> key_lt(key@, v@[r.0 as int].0@),
{
    let mut j: usize = 0;
    while j < v.len()
        invariant
            j <= v@.len(),
            forall|i: int| 0 <= i < j ==> key_lt(#[trigger] v@[i].0@, key@),
        decreases v@.len() - j,
    {
        let c = compare_keys(&str_chars(v[j].0.as_str()), key);
        if c == 0 {
            return (j, true);
        }
        if c > 0 {
            return (j, false);
        }
        j += 1;
    }
    (j, false)
}

impl Mapping {
    /// Stores `child` under `key` in an inner node, replacing the entry of that name if there
    /// is one, and keeps the entries sorted.  A leaf is left as it is.  Returns whether the
    /// mapping is an inner node (and so was changed).
    pub fn insert(&mut self, key: String, child: Mapping) -> (inserted: bool)
        ensures
            inserted == old(self).is_node(),
            inserted ==> final(self).is_node(),
            inserted ==> forall|k: Seq<char>| #[trigger] final(self).child(k) == if k == key@ {
                Some(child)
            } else {
                old(self).child(k)
            },
            !inserted ==> final(self).leaf_value() == old(self).leaf_value(),
    {
        proof { use_type_invariant(&*self); }
        let ghost old_self = *self;
        let mut taken = MapInner::Node(Vec::new());
        std::mem::swap(&mut taken, &mut self.inner);
        match taken {
            MapInner::Leaf(value) => {
                self.inner = MapInner::Leaf(value);
                false
            },
            MapInner::Node(mut v) => {
                let ghost old_v = v@;
                assert(old_v == old_self.entries());
                assert(keys_sorted(old_v));
                let kc = str_chars(key.as_str());
                let (j, found) = insertion_point(&v, kc.as_slice());
                proof {
                    lemma_key_lt_irreflexive(key@);
                }
                let ghost pos = j as int;
                if found {
                    v.remove(j);
                }
                v.insert(j, (key, child));
                let ghost new_v = v@;
                proof {
                    // The new sequence replaces or inserts at `pos`.
                    let skip_old = if found { pos + 1 } else { pos };
                    assert(new_v.len() == pos + 1 + (old_v.len() - skip_old));
                    assert forall|i: int| 0 <= i < pos implies #[trigger] new_v[i] == old_v[i] by {}
                    assert forall|i: int| pos < i < new_v.len() implies #[trigger] new_v[i] == old_v[i - pos - 1 + skip_old] by {}
                    assert(new_v[pos].0@ == key@ && new_v[pos].1 == child);
                    // Keys after the position are greater than the new key.
                    assert forall|i: int| skip_old <= i < old_v.len() implies key_lt(key@, #[trigger] old_v[i].0@) by {
                        if found {
                            assert(old_v[pos].0@ == key@);
                            assert(key_lt(old_v[pos].0@, old_v[i].0@));
                        } else {
                            assert(key_lt(key@, old_v[pos].0@));
                            if i > pos {
                                lemma_key_lt_transitive(key@, old_v[pos].0@, old_v[i].0@);
                            }
                        }
                    }
                    assert forall|a: int, b: int| 0 <= a < b < new_v.len() implies key_lt(#[trigger] new_v[a].0@, #[trigger] new_v[b].0@) by {
                        if b < pos {
                        } else if b == pos {
                        } else if a < pos {
                            lemma_key_lt_transitive(new_v[a].0@, key@, new_v[b].0@);
                        } else if a == pos {
                        } else {
                        }
                    }
                    assert(keys_sorted(new_v));
                    lemma_find_entry_sorted(old_v, key@);
                    lemma_find_entry_sorted(new_v, key@);
                    assert forall|k: Seq<char>| find_entry(new_v, k) == if k == key@ {
                        Some(child)
                    } else {
                        find_entry(old_v, k)
                    } by {
                        lemma_find_entry_sorted(old_v, k);
                        lemma_find_entry_sorted(new_v, k);
                        if k != key@ {
                            if exists|i: int| 0 <= i < old_v.len() && old_v[i].0@ == k {
                                let i = choose|i: int| 0 <= i < old_v.len() && old_v[i].0@ == k;
                                if i < pos {
                                    assert(new_v[i] == old_v[i]);
                                } else if found && i == pos {
                                } else {
                                    let ni = i + pos + 1 - skip_old;
                                    assert(new_v[ni] == old_v[i]);
                                }
                            } else {
                                assert forall|i: int| 0 <= i < new_v.len() implies new_v[i].0@ != k by {
                                    if i < pos {
                                        assert(new_v[i] == old_v[i]);
                                    } else if i > pos {
                                        assert(new_v[i] == old_v[i - pos - 1 + skip_old]);
                                    }
                                }
                            }
                        }
                    }
                }
                self.inner = MapInner::Node(v);
                true
            },
        }
    }
}

/// Where a walk along `path[i..]` from `m` stops: at the end of the path, at a leaf, or at
/// the first name that is not found.  For a missing name this is the number of leading
/// names that resolved.
pub open spec fn walk_stop(m: Mapping, path: Seq<Seq<char>>, i: int, dashes: bool) -> int
    decreases path.len() - i,
{
    if i >= path.len() || m.leaf_value() is Some {
        i
    } else {
        match step(m, path[i], dashes) {
            None => i,
            Some(c) => walk_stop(c, path, i + 1, dashes),
        }
    }
}

impl Mapping {
    /// Like [`Mapping::lookup`], but a missing name is a `NotFound` error that carries the
    /// whole path and the number of leading names that resolved before the missing one.
    pub fn resolve(&self, path: &[&str]) -> (r: Result<&str, Error>)
        ensures
            match walk(*self, path_view(path@), 0, false) {
                LookupOutcome::Found(v) => r matches Ok(s) && s@ == v,
                LookupOutcome::Missing => r matches Err(Error::Classmap(ResolveError::NotFound { matched, path: p }))
                    && matched == walk_stop(*self, path_view(path@), 0, false) && strings_view(p@) == path_view(path@),
                LookupOutcome::NotALeaf(k) => r matches Err(Error::Classmap(ResolveError::NotALeaf { path: p }))
                    && strings_view(p@) == path_view(path@).take(k as int),
            },
    {
        let ghost pv = path_view(path@);
        let mut current: &Mapping = self;
        let mut i: usize = 0;
        while i < path.len()
            invariant
                i <= path@.len(),
                pv == path_view(path@),
                walk(*self, pv, 0, false) == walk(*current, pv, i as int, false),
                walk_stop(*self, pv, 0, false) == walk_stop(*current, pv, i as int, false),
            decreases path@.len() - i,
        {
            match &current.inner {
                MapInner::Leaf(_) => {
                    return Err(Error::Classmap(ResolveError::NotALeaf { path: prefix_strings(path, i) }));
                },
                MapInner::Node(v) => {
                    let key = str_chars(path[i]);
                    match find_key(v, key.as_slice()) {
                        Some(j) => {
                            current = &v[j].1;
                        },
                        None => {
                            assert(path_view(path@).take(path@.len() as int) =~= path_view(path@));
                            return Err(Error::Classmap(ResolveError::NotFound {
                                matched: i,
                                path: prefix_strings(path, path.len()),
                            }));
                        },
                    }
                },
            }
            i += 1;
        }
        match &current.inner {
            MapInner::Leaf(value) => Ok(value.as_str()),
            MapInner::Node(_) => Err(Error::Classmap(ResolveError::NotALeaf { path: prefix_strings(path, path.len()) })),
        }
    }
}

/// A view of a classmap that resolves class names written in CSS, where the path is joined
/// with `__` and names may use `-` in place of `_`.
pub struct CssMappingRef<'a> {
    inner: &'a Mapping,
}

impl<'a> CssMappingRef<'a> {
    /// The classmap this view reads.
    pub closed spec fn mapping(&self) -> Mapping {
        *self.inner
    }

    /// The classmap this view reads.
    pub fn inner(&self) -> (r: &'a Mapping)
        ensures
            *r == self.mapping(),
    {
        self.inner
    }

    /// A view of `inner`.
    pub fn new(inner: &'a Mapping) -> (r: Self)
        ensures
            r.mapping() == *inner,
    {
        Self { inner }
    }

    /// Splits `css_path` at every `__` and follows the pieces like [`Mapping::lookup`], except
    /// that a name not found as written is looked up again with its dashes read as
    /// underscores.
    pub fn lookup(&self, css_path: &str) -> (r: Result<Option<&'a str>, Error>)
        ensures
            lookup_reports(r, walk(self.mapping(), crate::text::split_by(css_path@, seq!['_', '_']), 0, true),
                crate::text::split_by(css_path@, seq!['_', '_'])),
    {
        let chars = str_chars(css_path);
        let sep: Vec<char> = vec!['_', '_'];
        assert(sep@ =~= seq!['_', '_']);
        let path = split_chars(chars.as_slice(), sep.as_slice());
        let ghost pv = chars_view(path@);
        assert(pv == crate::text::split_by(css_path@, seq!['_', '_']));
        let mut current: &'a Mapping = self.inner;
        let mut i: usize = 0;
        while i < path.len()
            invariant
                i <= path@.len(),
                pv == chars_view(path@),
                pv == crate::text::split_by(css_path@, seq!['_', '_']),
                walk(*self.inner, pv, 0, true) == walk(*current, pv, i as int, true),
            decreases path@.len() - i,
        {
            match &current.inner {
                MapInner::Leaf(_) => {
                    return Err(Error::Classmap(ResolveError::NotALeaf { path: prefix_char_strings(&path, i) }));
                },
                MapInner::Node(v) => {
                    match find_key(v, path[i].as_slice()) {
                        Some(j) => {
                            current = &v[j].1;
                        },
                        None => {
                            let dashed = dashes_to_underscores(path[i].as_slice());
                            match find_key(v, dashed.as_slice()) {
                                Some(j) => {
                                    current = &v[j].1;
                                },
                                None => {
                                    return Ok(None);
                                },
                            }
                        },
                    }
                },
            }
            i += 1;
        }
        match &current.inner {
            MapInner::Leaf(value) => Ok(Some(value.as_str())),
            MapInner::Node(_) => Err(Error::Classmap(ResolveError::NotALeaf { path: prefix_char_strings(&path, path.len()) })),
        }
    }
}

/// `s` with every `-` replaced by `_`.
fn dashes_to_underscores(s: &[char]) -> (r: Vec<char>)
    ensures
        r@ == dash_to_underscore(s@),
{
    let mut r: Vec<char> = Vec::new();
    let mut i: usize = 0;
    while i < s.len()
        invariant
            i <= s@.len(),
            r@ == dash_to_underscore(s@.take(i as int)),
        decreases s@.len() - i,
    {
        let c = s[i];
        r.push(if c == '-' { '_' } else { c });
        assert(s@.take(i + 1) =~= s@.take(i as int).push(c));
        assert(r@ =~= dash_to_underscore(s@.take(i + 1)));
        i += 1;
    }
    assert(s@.take(i as int) =~= s@);
    r
}

/// A classmap together with the version encoded in the address it came from.
#[derive(Debug)]
pub struct ClassmapInfo {
    pub mapping: Mapping,
    pub version: u64,
}

/// The TypeScript type that describes `m`: a leaf is the string literal type of its value,
/// an inner node an object type with one `readonly` property per entry, in entry order.
pub closed spec fn dts_type(m: Mapping) -> Seq<char>
    decreases m,
{
    match m.inner {
        MapInner::Leaf(v) => seq!['"'] + v@ + seq!['"'],
        MapInner::Node(v) => seq!['{'] + dts_entries(v@) + seq!['}'],
    }
}

/// The properties of an object type for the entries `es`, in order.
pub open spec fn dts_entries(es: Seq<(String, Mapping)>) -> Seq<char>
    decreases es,
{
    if es.len() == 0 {
        Seq::empty()
    } else {
        dts_entries(es.drop_last()) + "readonly \""@ + es.last().0@ + "\":"@ + dts_type(es.last().1)
            + seq![',']
    }
}

/// What [`dts_type`] is, in the terms of the public view of a classmap: a leaf's value in
/// double quotes, or the properties of the node's entries in braces.
pub proof fn lemma_dts_type(m: Mapping)
    ensures
        dts_type(m) == match m.leaf_value() {
            Some(v) => seq!['"'] + v + seq!['"'],
            None => seq!['{'] + dts_entries(m.entries()) + seq!['}'],
        },
{
}

/// The declaration file text that declares `MAP` with the type of `m`.
pub open spec fn dts_text(m: Mapping) -> Seq<char> {
    "/* Spicetify Classmap */\n\ndeclare const MAP: "@ + dts_type(m) + ";\n"@
}

/// Appends the type of `m` to `out`.
fn gen_type(m: &Mapping, out: &mut String)
    ensures
        final(out)@ == old(out)@ + dts_type(*m),
    decreases *m,
{
    match &m.inner {
        MapInner::Leaf(v) => {
            out.push('"');
            out.push_str(v.as_str());
            out.push('"');
            assert(final(out)@ =~= old(out)@ + dts_type(*m));
        },
        MapInner::Node(v) => {
            out.push('{');
            let ghost start = out@;
            let mut j: usize = 0;
            while j < v.len()
                invariant
                    j <= v@.len(),
                    m.inner is Node && m.inner->Node_0 == *v,
                    out@ == start + dts_entries(v@.take(j as int)),
                decreases v@.len() - j,
            {
                out.push_str("readonly \"");
                out.push_str(v[j].0.as_str());
                out.push_str("\":");
                proof {
                    assert(decreases_to!(*m => m.inner));
                    assert(m.inner is Node && m.inner->Node_0 == *v);
                    assert(decreases_to!(m.inner => m.inner->Node_0));
                    assert(decreases_to!(*v => v@));
                    assert(decreases_to!(v@ => v@[j as int]));
                    assert(decreases_to!(v@[j as int] => v@[j as int].1));
                }
                gen_type(&v[j].1, out);
                out.push(',');
                assert(v@.take(j + 1).drop_last() =~= v@.take(j as int));
                assert(out@ =~= start + dts_entries(v@.take(j + 1)));
                j += 1;
            }
            assert(v@.take(j as int) =~= v@);
            out.push('}');
            assert(final(out)@ =~= old(out)@ + dts_type(*m));
        },
    }
}

/// The TypeScript declaration of `MAP` for the classmap `mapping`.
pub fn gen_classmap_dts(mapping: &Mapping) -> (s: String)
    ensures
        s@ == dts_text(*mapping),
{
    let mut out = String::new();
    out.push_str("/* Spicetify Classmap */\n\ndeclare const MAP: ");
    gen_type(mapping, &mut out);
    out.push_str(";\n");
    out
}

/// The display form `major.minor.patch` of a classmap version, which packs the three
/// numbers as `major * 1_000_000 + minor * 1_000 + patch`.
pub open spec fn semver_display(version: nat) -> Seq<char> {
    crate::text::decimal(version / 1_000_000) + seq!['.'] + crate::text::decimal((version / 1_000) % 1_000)
        + seq!['.'] + crate::text::decimal(version % 1_000)
}

/// Writes a packed classmap version as `major.minor.patch`.
pub fn classmap_semver_display(version: u64) -> (s: String)
    ensures
        s@ == semver_display(version as nat),
{
    let major = version / 1_000_000;
    let minor = (version / 1_000) % 1_000;
    let patch = version % 1_000;
    let mut s = u64_to_decimal(major);
    s.push('.');
    let minor_text = u64_to_decimal(minor);
    s.push_str(minor_text.as_str());
    s.push('.');
    let patch_text = u64_to_decimal(patch);
    s.push_str(patch_text.as_str());
    s
}

/// The address prefix every classmap URL starts with.
pub open spec fn classmap_url_prefix() -> Seq<char> {
    "https://raw.githubusercontent.com/"@
}

/// Whether `s` is a non-empty run of ASCII digits.
pub open spec fn is_digits(s: Seq<char>) -> bool {
    s.len() > 0 && forall|i: int| 0 <= i < s.len() ==> '0' <= #[trigger] s[i] <= '9'
}

/// The number an ASCII digit string denotes.
pub open spec fn digits_value(s: Seq<char>) -> nat
    decreases s.len(),
{
    if s.len() == 0 {
        0
    } else {
        digits_value(s.drop_last()) * 10 + (s.last() as nat - '0' as nat) as nat
    }
}

/// The three version numbers of a classmap URL of the form
/// `https://raw.githubusercontent.com/<owner>/<repo>/<ref>/<major>.<minor>.<patch>/classmap.json`,
/// where the owner, repository and ref are non-empty and hold no `/`, and the version numbers
/// are runs of digits.
pub open spec fn url_semver_parts(url: Seq<char>) -> Option<Seq<Seq<char>>> {
    let prefix = classmap_url_prefix();
    if url.len() >= prefix.len() && url.take(prefix.len() as int) == prefix {
        let parts = crate::text::split_by(url.skip(prefix.len() as int), seq!['/']);
        if parts.len() == 5 && parts[0].len() > 0 && parts[1].len() > 0 && parts[2].len() > 0
            && parts[4] == "classmap.json"@ {
            let nums = crate::text::split_by(parts[3], seq!['.']);
            if nums.len() == 3 && is_digits(nums[0]) && is_digits(nums[1]) && is_digits(nums[2]) {
                Some(nums)
            } else {
                None
            }
        } else {
            None
        }
    } else {
        None
    }
}

/// The message for a URL that does not have the classmap form.
pub open spec fn invalid_url_message(url: Seq<char>) -> Seq<char> {
    "invalid classmap url: "@ + url
        + ". Expected https://raw.githubusercontent.com/<owner>/<repo>/<ref>/<major>.<minor>.<patch>/classmap.json"@
}

/// The message for a URL whose version numbers do not fit in 64 bits.
pub open spec fn too_large_message(url: Seq<char>) -> Seq<char> {
    "invalid classmap semver in url: "@ + url + ": number too large to fit in target type"@
}

/// Reads a run of ASCII digits as a number, or `None` when it does not fit in 64 bits.
fn parse_digits(s: &[char]) -> (r: Option<u64>)
    requires
        is_digits(s@),
    ensures
        match r {
            Some(v) => v == digits_value(s@),
            None => digits_value(s@) > u64::MAX,
        },
{
    let mut v: u64 = 0;
    let mut i: usize = 0;
    while i < s.len()
        invariant
            i <= s@.len(),
            is_digits(s@),
            v == digits_value(s@.take(i as int)),
        decreases s@.len() - i,
    {
        let c = s[i];
        let d = (c as u32 - '0' as u32) as u64;
        assert(s@.take(i + 1).drop_last() =~= s@.take(i as int));
        assert(s@.take(i + 1).last() == c);
        match v.checked_mul(10) {
            Some(t) => match t.checked_add(d) {
                Some(n) => {
                    v = n;
                },
                None => {
                    proof { lemma_digits_value_grows(s@, i as int + 1); }
                    return None;
                },
            },
            None => {
                proof { lemma_digits_value_grows(s@, i as int + 1); }
                return None;
            },
        }
        i += 1;
    }
    assert(s@.take(i as int) =~= s@);
    Some(v)
}

/// A digit string denotes at least as much as any of its prefixes.
pub proof fn lemma_digits_value_grows(s: Seq<char>, k: int)
    requires
        0 <= k <= s.len(),
        is_digits(s),
    ensures
        digits_value(s) >= digits_value(s.take(k)),
    decreases s.len() - k,
{
    if k < s.len() {
        lemma_digits_value_grows(s, k + 1);
        assert(s.take(k + 1).drop_last() =~= s.take(k));
    } else {
        assert(s.take(k) =~= s);
    }
}

/// Whether every character of `s` is an ASCII digit, and there is at least one.
fn all_digits(s: &[char]) -> (r: bool)
    ensures
        r == is_digits(s@),
{
    if s.len() == 0 {
        return false;
    }
    let mut i: usize = 0;
    while i < s.len()
        invariant
            i <= s@.len(),
            forall|k: int| 0 <= k < i ==> '0' <= #[trigger] s@[k] <= '9',
        decreases s@.len() - i,
    {
        if s[i] < '0' || s[i] > '9' {
            return false;
        }
        i += 1;
    }
    true
}

/// The packed version `major * 1_000_000 + minor * 1_000 + patch`, computed in 64-bit
/// arithmetic that wraps around.
pub open spec fn packed_version(major: u64, minor: u64, patch: u64) -> u64 {
    major.wrapping_mul(1_000_000).wrapping_add(minor.wrapping_mul(1_000)).wrapping_add(patch)
}

/// Reads the classmap version out of a classmap URL: the URL must have the form
/// `https://raw.githubusercontent.com/<owner>/<repo>/<ref>/<major>.<minor>.<patch>/classmap.json`,
/// and the three numbers are packed as `major * 1_000_000 + minor * 1_000 + patch`.
pub fn classmap_version_from_url(url: &str) -> (r: Result<u64, Error>)
    ensures
        match url_semver_parts(url@) {
            None => r matches Err(Error::ClassmapFetch(m)) && m@ == invalid_url_message(url@),
            Some(nums) => if digits_value(nums[0]) > u64::MAX || digits_value(nums[1]) > u64::MAX
                || digits_value(nums[2]) > u64::MAX {
                r matches Err(Error::ClassmapFetch(m)) && m@ == too_large_message(url@)
            } else {
                r == Ok::<u64, Error>(packed_version(
                    digits_value(nums[0]) as u64,
                    digits_value(nums[1]) as u64,
                    digits_value(nums[2]) as u64,
                ))
            },
        },
{
    let chars = str_chars(url);
    let prefix = str_chars("https://raw.githubusercontent.com/");
    let parts = if crate::text::occurs_at(chars.as_slice(), 0, prefix.as_slice()) {
        assert(chars@.subrange(0, prefix@.len() as int) =~= chars@.take(prefix@.len() as int));
        let mut rest: Vec<char> = Vec::new();
        let mut k = prefix.len();
        while k < chars.len()
            invariant
                prefix@.len() <= k <= chars@.len(),
                rest@ == chars@.subrange(prefix@.len() as int, k as int),
            decreases chars@.len() - k,
        {
            rest.push(chars[k]);
            assert(chars@.subrange(prefix@.len() as int, k + 1) =~= rest@);
            k += 1;
        }
        assert(rest@ =~= chars@.skip(prefix@.len() as int));
        let slash: Vec<char> = vec!['/'];
        assert(slash@ =~= seq!['/']);
        let segs = split_chars(rest.as_slice(), slash.as_slice());
        let tail = str_chars("classmap.json");
        if segs.len() == 5 && segs[0].len() > 0 && segs[1].len() > 0 && segs[2].len() > 0
            && chars_equal(segs[4].as_slice(), tail.as_slice()) {
            let dot: Vec<char> = vec!['.'];
            assert(dot@ =~= seq!['.']);
            let nums = split_chars(segs[3].as_slice(), dot.as_slice());
            if nums.len() == 3 && all_digits(nums[0].as_slice()) && all_digits(nums[1].as_slice())
                && all_digits(nums[2].as_slice()) {
                Some(nums)
            } else {
                None
            }
        } else {
            None
        }
    } else {
        None
    };
    match parts {
        None => {
            let mut m = crate::text::to_owned_string("invalid classmap url: ");
            m.push_str(url);
            m.push_str(". Expected https://raw.githubusercontent.com/<owner>/<repo>/<ref>/<major>.<minor>.<patch>/classmap.json");
            Err(Error::ClassmapFetch(m))
        },
        Some(nums) => {
            let major = parse_digits(nums[0].as_slice());
            let minor = parse_digits(nums[1].as_slice());
            let patch = parse_digits(nums[2].as_slice());
            match (major, minor, patch) {
                (Some(a), Some(b), Some(c)) => Ok(a.wrapping_mul(1_000_000).wrapping_add(b.wrapping_mul(1_000)).wrapping_add(c)),
                _ => {
                    let mut m = crate::text::to_owned_string("invalid classmap semver in url: ");
                    m.push_str(url);
                    m.push_str(": number too large to fit in target type");
                    Err(Error::ClassmapFetch(m))
                },
            }
        },
    }
}


/// An empty classmap finds nothing: every non-empty path is missing, and the empty path ends
/// at the (inner) root, which is not a leaf.
pub proof fn law_empty_finds_nothing(m: Mapping, path: Seq<Seq<char>>, dashes: bool)
    requires
        m.is_node(),
        m.entries().len() == 0,
    ensures
        path.len() > 0 ==> walk(m, path, 0, dashes) == LookupOutcome::Missing,
        path.len() == 0 ==> walk(m, path, 0, dashes) == LookupOutcome::NotALeaf(0),
{
    assert forall|k: Seq<char>| #[trigger] m.child(k) is None by {
        assert(find_entry(m.entries(), k) is None);
    }
    if path.len() > 0 {
        assert(m.child(path[0]) is None);
        assert(m.child(dash_to_underscore(path[0])) is None);
    }
}

/// After a child is inserted under `key`, a path that starts with `key` continues in that
/// child: what the rest of the path finds there is what the whole path finds.
pub proof fn law_insert_then_walk(old: Mapping, new: Mapping, key: Seq<char>, child: Mapping, path: Seq<Seq<char>>, dashes: bool)
    requires
        old.is_node(),
        new.is_node(),
        forall|k: Seq<char>| #[trigger] new.child(k) == if k == key {
            Some(child)
        } else {
            old.child(k)
        },
        path.len() > 0,
        path[0] == key,
    ensures
        walk(new, path, 0, dashes) == walk(child, path, 1, dashes),
{
    assert(new.child(key) == Some(child));
}

/// The display of a packed version gives back the three numbers it was packed from, when the
/// minor and patch numbers are below a thousand.
pub proof fn law_semver_display_of_packed(major: nat, minor: nat, patch: nat)
    requires
        minor < 1000,
        patch < 1000,
    ensures
        semver_display(major * 1_000_000 + minor * 1_000 + patch) == crate::text::decimal(major) + seq!['.']
            + crate::text::decimal(minor) + seq!['.'] + crate::text::decimal(patch),
{
    let v = major * 1_000_000 + minor * 1_000 + patch;
    let low = minor * 1_000 + patch;
    assert(low < 1_000_000) by (nonlinear_arith)
        requires
            minor < 1000,
            patch < 1000,
            low == minor * 1_000 + patch,
    ;
    assert(v / 1_000_000 == major) by (nonlinear_arith)
        requires
            v == major * 1_000_000 + low,
            0 <= low < 1_000_000,
    ;
    assert(v / 1_000 == major * 1_000 + minor) by (nonlinear_arith)
        requires
            v == major * 1_000_000 + minor * 1_000 + patch,
            patch < 1000,
    ;
    assert((major * 1_000 + minor) % 1_000 == minor) by (nonlinear_arith)
        requires
            minor < 1000,
    ;
    assert(v % 1_000 == patch) by (nonlinear_arith)
        requires
            v == (major * 1_000 + minor) * 1_000 + patch,
            patch < 1000,
    ;
    assert(v == (major * 1_000 + minor) * 1_000 + patch) by (nonlinear_arith)
        requires
            v == major * 1_000_000 + minor * 1_000 + patch,
    ;
}

/// When the packed version fits in 64 bits, the wrapping arithmetic of [`packed_version`]
/// computes it exactly, so a classmap URL's numbers come back out of the display.
pub proof fn law_packed_version_round_trip(major: u64, minor: u64, patch: u64)
    requires
        minor < 1000,
        patch < 1000,
        major * 1_000_000 + minor * 1_000 + patch <= u64::MAX,
    ensures
        packed_version(major, minor, patch) == major * 1_000_000 + minor * 1_000 + patch,
        semver_display(packed_version(major, minor, patch) as nat) == crate::text::decimal(major as nat) + seq!['.']
            + crate::text::decimal(minor as nat) + seq!['.'] + crate::text::decimal(patch as nat),
{
    assert(major * 1_000_000 <= u64::MAX) by (nonlinear_arith)
        requires
            major * 1_000_000 + minor * 1_000 + patch <= u64::MAX,
            minor >= 0,
            patch >= 0,
    ;
    assert(minor * 1_000 < 1_000_000) by (nonlinear_arith)
        requires
            minor < 1000,
    ;
    assert(((major as nat) * 1_000_000) % 0x1_0000_0000_0000_0000 == major * 1_000_000);
    assert(((minor as nat) * 1_000) % 0x1_0000_0000_0000_0000 == minor * 1_000);
    law_semver_display_of_packed(major as nat, minor as nat, patch as nat);
}


/// For names without `-`, the dash fallback of the CSS lookup never applies: walking a path
/// of such names with it finds what walking without it finds.
pub proof fn law_dash_free_walks_agree(m: Mapping, path: Seq<Seq<char>>, i: int)
    requires
        0 <= i,
        forall|k: int| 0 <= k < path.len() ==> !(#[trigger] path[k]).contains('-'),
    ensures
        walk(m, path, i, true) == walk(m, path, i, false),
    decreases path.len() - i,
{
    if 0 <= i < path.len() && m.leaf_value() is None {
        let key = path[i];
        assert(dash_to_underscore(key) =~= key) by {
            assert forall|j: int| 0 <= j < key.len() implies key[j] != '-' by {
                if key[j] == '-' {
                    assert(key.contains('-'));
                }
            }
        }
        match step(m, key, false) {
            Some(c) => {
                law_dash_free_walks_agree(c, path, i + 1);
            },
            None => {},
        }
    }
}


/// Where a strict walk along `path[i..]` stops: the node it reached and the number of names
/// it matched.  It stops at a leaf, at a name the node does not have, or at the end.
pub open spec fn strict_reach(m: Mapping, path: Seq<Seq<char>>, i: int) -> (Mapping, int)
    decreases path.len() - i,
{
    if i < 0 || i >= path.len() || m.leaf_value() is Some {
        (m, i)
    } else {
        match m.child(path[i]) {
            Some(c) => strict_reach(c, path, i + 1),
            None => (m, i),
        }
    }
}

/// The pieces joined with `sep` between them.
pub open spec fn joined(pieces: Seq<Seq<char>>, sep: Seq<char>) -> Seq<char>
    decreases pieces.len(),
{
    if pieces.len() == 0 {
        Seq::empty()
    } else if pieces.len() == 1 {
        pieces[0]
    } else {
        joined(pieces.drop_last(), sep) + sep + pieces.last()
    }
}

/// The strict lookup of `path`: nothing when not even the first name is found; an error
/// naming the path up to the first name not found (joined with `sep`) when only some are;
/// the value when the whole path ends at a leaf, and an error naming `whole` when it ends at
/// an inner node.
pub open spec fn strict_lookup(m: Mapping, path: Seq<Seq<char>>, sep: Seq<char>, whole: Seq<char>) -> Result<Option<Seq<char>>, Seq<char>> {
    let (node, k) = strict_reach(m, path, 0);
    if k == 0 {
        Ok(None)
    } else if k != path.len() {
        Err(joined(path.take(k + 1), sep) + " isn't a node of the provided mapping"@)
    } else {
        match node.leaf_value() {
            Some(v) => Ok(Some(v)),
            None => Err(whole + " isn't an ending node (leaf) of the provided mapping"@),
        }
    }
}

/// Whether `r` reports the strict lookup outcome `o`.
pub open spec fn strict_reports(r: Result<Option<String>, String>, o: Result<Option<Seq<char>>, Seq<char>>) -> bool {
    match o {
        Ok(Some(v)) => r matches Ok(Some(s)) && s@ == v,
        Ok(None) => r matches Ok(None),
        Err(msg) => r matches Err(e) && e@ == msg,
    }
}

/// The first `k` strings of `path` joined with `sep`.
pub fn join_prefix(path: &Vec<String>, k: usize, sep: &str) -> (r: String)
    requires
        k <= path@.len(),
    ensures
        r@ == joined(strings_view(path@).take(k as int), sep@),
{
    let mut r = String::new();
    let mut i: usize = 0;
    assert(strings_view(path@).take(0) =~= Seq::<Seq<char>>::empty());
    while i < k
        invariant
            i <= k <= path@.len(),
            r@ == joined(strings_view(path@).take(i as int), sep@),
        decreases k - i,
    {
        let ghost t = strings_view(path@).take(i + 1);
        assert(t.drop_last() =~= strings_view(path@).take(i as int));
        assert(t.last() == path@[i as int]@);
        if i > 0 {
            r.push_str(sep);
        } else {
            assert(joined(strings_view(path@).take(0), sep@) =~= Seq::<char>::empty());
        }
        r.push_str(path[i].as_str());
        proof {
            if i == 0 {
                assert(r@ =~= t[0]);
            }
        }
        i += 1;
    }
    r
}

/// The strict lookup of `path` (see [`strict_lookup`]).
pub fn strict_lookup_strings(mapping: &Mapping, path: &Vec<String>, sep: &str, whole: &str) -> (r: Result<Option<String>, String>)
    ensures
        strict_reports(r, strict_lookup(*mapping, strings_view(path@), sep@, whole@)),
{
    let ghost pv = strings_view(path@);
    let mut current: &Mapping = mapping;
    let mut k: usize = 0;
    let mut stop = false;
    while k < path.len() && !stop
        invariant
            k <= path@.len(),
            pv == strings_view(path@),
            strict_reach(*mapping, pv, 0) == strict_reach(*current, pv, k as int),
            stop ==> strict_reach(*current, pv, k as int) == (*current, k as int),
        decreases path@.len() - k, if stop { 0int } else { 1int },
    {
        match &current.inner {
            MapInner::Leaf(_) => {
                stop = true;
            },
            MapInner::Node(v) => {
                let key = str_chars(path[k].as_str());
                match find_key(v, key.as_slice()) {
                    Some(j) => {
                        current = &v[j].1;
                        k += 1;
                    },
                    None => {
                        stop = true;
                    },
                }
            },
        }
    }
    if k == 0 {
        return Ok(None);
    }
    if k != path.len() {
        let mut msg = join_prefix(path, k + 1, sep);
        msg.push_str(" isn't a node of the provided mapping");
        return Err(msg);
    }
    match &current.inner {
        MapInner::Leaf(value) => Ok(Some(to_owned_string(value.as_str()))),
        MapInner::Node(_) => {
            let mut msg = to_owned_string(whole);
            msg.push_str(" isn't an ending node (leaf) of the provided mapping");
            Err(msg)
        },
    }
}

/// The strict lookup of `path`, with the whole path joined by `sep` named when it ends at an
/// inner node.
pub fn lookup_mapping_path(mapping: &Mapping, path: &[&str], sep: &str) -> (r: Result<Option<String>, String>)
    ensures
        strict_reports(r, strict_lookup(*mapping, path_view(path@), sep@, joined(path_view(path@), sep@))),
{
    let owned = prefix_strings(path, path.len());
    assert(path_view(path@).take(path@.len() as int) =~= path_view(path@));
    let whole = join_prefix(&owned, owned.len(), sep);
    assert(strings_view(owned@).take(owned@.len() as int) =~= strings_view(owned@));
    strict_lookup_strings(mapping, &owned, sep, whole.as_str())
}

/// For a CSS class path without `-`, the lookup of [`CssMappingRef::lookup`] finds what
/// [`Mapping::lookup`] finds for the path's `__`-separated pieces: both contracts are then
/// stated by the same walk, with and without the dash fallback.
pub proof fn law_css_lookup_without_dash_is_plain_lookup(m: Mapping, css_path: Seq<char>)
    requires
        !css_path.contains('-'),
    ensures
        walk(m, crate::text::split_by(css_path, seq!['_', '_']), 0, true) == walk(
            m,
            crate::text::split_by(css_path, seq!['_', '_']),
            0,
            false,
        ),
{
    crate::text::lemma_split_by_lacks(css_path, seq!['_', '_'], '-');
    law_dash_free_walks_agree(m, crate::text::split_by(css_path, seq!['_', '_']), 0);
}

/// The property that declares the entry `e` in an object type: `readonly "key":type,`.
pub open spec fn dts_property(e: (String, Mapping)) -> Seq<char> {
    "readonly \""@ + e.0@ + "\":"@ + dts_type(e.1) + seq![',']
}

/// The declared object type of a node has one property per entry, in entry order: the
/// properties of two runs of entries are those of the first run followed by those of the
/// second, and a single entry gives exactly its own property.
pub proof fn law_dts_one_property_per_entry(a: Seq<(String, Mapping)>, b: Seq<(String, Mapping)>, e: (String, Mapping))
    ensures
        dts_entries(a + b) == dts_entries(a) + dts_entries(b),
        dts_entries(seq![e]) == dts_property(e),
    decreases b.len(),
{
    assert(seq![e].drop_last() =~= Seq::<(String, Mapping)>::empty());
    assert(dts_entries(Seq::<(String, Mapping)>::empty()) == Seq::<char>::empty());
    assert(dts_entries(seq![e]) =~= dts_property(e));
    if b.len() == 0 {
        assert(a + b =~= a);
        assert(dts_entries(a) + dts_entries(b) =~= dts_entries(a));
    } else {
        law_dts_one_property_per_entry(a, b.drop_last(), e);
        assert((a + b).drop_last() =~= a + b.drop_last());
        assert((a + b).last() == b.last());
        assert(dts_entries(a + b) =~= dts_entries(a) + dts_entries(b));
    }
}

} // verus!
