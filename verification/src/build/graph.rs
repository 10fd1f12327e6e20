use vstd::prelude::*;

use crate::error::Error;
use crate::paths::{extension_of, path_key, path_key_of, strip_path_prefix};
use crate::text::{str_equal, to_owned_string};

verus! {

/// The position of a source file in a [`BuildGraph`].
#[derive(Copy, Clone, PartialEq, Eq, Hash, Ord, PartialOrd, Debug, Structural)]
pub struct NodeId(pub u32);

impl NodeId {
    /// The id with the number `raw`.
    pub fn from_raw(raw: u32) -> (id: Self)
        ensures
            id.0 == raw,
    {
        Self(raw)
    }

    /// The number of this id.
    pub fn raw(self) -> (r: u32)
        ensures
            r == self.0,
    {
        self.0
    }
}

/// What `blake3::hash` returns for `data`.
pub uninterp spec fn blake3_digest(data: Seq<u8>) -> Seq<u8>;

/// The BLAKE3 hash of `data` (`blake3::hash`), as its 32 bytes.
#[verifier::external_body]
fn blake3_hash(data: &[u8]) -> (r: [u8; 32])
    ensures
        r@ == blake3_digest(data@),
{
    blake3::hash(data).into()
}

/// The BLAKE3 hash of a file's content.
#[derive(Copy, Clone, PartialEq, Eq, Hash, Ord, PartialOrd, Debug)]
pub struct ContentHash([u8; 32]);

/// The lower-case hexadecimal digit for a value below sixteen.
pub open spec fn hex_digit(d: nat) -> char {
    if d < 10 {
        (('0' as u32) + d) as char
    } else {
        (('a' as u32) + d - 10) as char
    }
}

/// Two lower-case hexadecimal digits for each byte, as `format!("{byte:02x}")` writes them.
pub open spec fn hex(bytes: Seq<u8>) -> Seq<char>
    decreases bytes.len(),
{
    if bytes.len() == 0 {
        Seq::empty()
    } else {
        hex(bytes.drop_last()) + seq![
            hex_digit((bytes.last() / 16) as nat),
            hex_digit((bytes.last() % 16) as nat),
        ]
    }
}

/// The lower-case hexadecimal digit for `d`.
fn hex_char(d: u8) -> (c: char)
    requires
        d < 16,
    ensures
        c == hex_digit(d as nat),
{
    if d < 10 {
        ((('0' as u8) + d) as char)
    } else {
        ((('a' as u8) + d - 10) as char)
    }
}

impl ContentHash {
    /// The bytes of the hash.
    pub closed spec fn bytes(self) -> Seq<u8> {
        self.0@
    }

    /// The hash with the given bytes.
    pub fn from_blake3(bytes: &[u8; 32]) -> (h: Self)
        ensures
            h.bytes() == bytes@,
    {
        Self(*bytes)
    }

    /// The BLAKE3 hash of `bytes`.
    pub fn from_bytes(bytes: &[u8]) -> (h: Self)
        ensures
            h.bytes() == blake3_digest(bytes@),
    {
        let digest = blake3_hash(bytes);
        Self::from_blake3(&digest)
    }

    /// The bytes of the hash.
    pub fn as_bytes(&self) -> (r: &[u8; 32])
        ensures
            r@ == self.bytes(),
    {
        &self.0
    }

    /// The hash as 64 lower-case hexadecimal digits.
    pub fn to_hex(&self) -> (s: String)
        ensures
            s@ == hex(self.bytes()),
    {
        let mut out = String::new();
        let mut i: usize = 0;
        while i < 32
            invariant
                i <= 32,
                self.0@.len() == 32,
                out@ == hex(self.0@.take(i as int)),
            decreases 32 - i,
        {
            let b = self.0[i];
            out.push(hex_char(b / 16));
            out.push(hex_char(b % 16));
            assert(self.0@.take(i + 1).drop_last() =~= self.0@.take(i as int));
            assert(out@ =~= hex(self.0@.take(i + 1)));
            i += 1;
        }
        assert(self.0@.take(32) =~= self.0@);
        out
    }
}

/// The kind of a source file, by its extension.
#[derive(Copy, Clone, Debug, PartialEq, Eq, Hash, Ord, PartialOrd, Structural)]
pub enum SourceKind {
    Js,
    Ts,
    Tsx,
    Jsx,
    Mjs,
    Mts,
    Scss,
    Css,
    Other,
}

/// The kind that files with extension `ext` have.
pub open spec fn kind_of_extension(ext: Option<Seq<char>>) -> SourceKind {
    match ext {
        Some(e) => if e == "ts"@ {
            SourceKind::Ts
        } else if e == "tsx"@ {
            SourceKind::Tsx
        } else if e == "js"@ {
            SourceKind::Js
        } else if e == "jsx"@ {
            SourceKind::Jsx
        } else if e == "mjs"@ {
            SourceKind::Mjs
        } else if e == "mts"@ {
            SourceKind::Mts
        } else if e == "scss"@ {
            SourceKind::Scss
        } else if e == "css"@ {
            SourceKind::Css
        } else {
            SourceKind::Other
        },
        None => SourceKind::Other,
    }
}

/// The name of a source kind as its `Debug` form writes it.
pub open spec fn kind_name(k: SourceKind) -> Seq<char> {
    match k {
        SourceKind::Js => "Js"@,
        SourceKind::Ts => "Ts"@,
        SourceKind::Tsx => "Tsx"@,
        SourceKind::Jsx => "Jsx"@,
        SourceKind::Mjs => "Mjs"@,
        SourceKind::Mts => "Mts"@,
        SourceKind::Scss => "Scss"@,
        SourceKind::Css => "Css"@,
        SourceKind::Other => "Other"@,
    }
}

impl SourceKind {
    /// The name of this kind, as its `Debug` form writes it.
    pub fn name(&self) -> (s: String)
        ensures
            s@ == kind_name(*self),
    {
        match self {
            SourceKind::Js => to_owned_string("Js"),
            SourceKind::Ts => to_owned_string("Ts"),
            SourceKind::Tsx => to_owned_string("Tsx"),
            SourceKind::Jsx => to_owned_string("Jsx"),
            SourceKind::Mjs => to_owned_string("Mjs"),
            SourceKind::Mts => to_owned_string("Mts"),
            SourceKind::Scss => to_owned_string("Scss"),
            SourceKind::Css => to_owned_string("Css"),
            SourceKind::Other => to_owned_string("Other"),
        }
    }

    /// Whether files of this kind are JavaScript or TypeScript.
    pub open spec fn spec_is_js_like(self) -> bool {
        self is Js || self is Ts || self is Tsx || self is Jsx || self is Mjs || self is Mts
    }

    /// Whether files of this kind are stylesheets.
    pub open spec fn spec_is_css_like(self) -> bool {
        self is Scss || self is Css
    }

    /// Whether files of this kind are JavaScript or TypeScript.
    pub fn is_js_like(self) -> (r: bool)
        ensures
            r == self.spec_is_js_like(),
    {
        match self {
            Self::Js | Self::Ts | Self::Tsx | Self::Jsx | Self::Mjs | Self::Mts => true,
            _ => false,
        }
    }

    /// Whether files of this kind are stylesheets.
    pub fn is_css_like(self) -> (r: bool)
        ensures
            r == self.spec_is_css_like(),
    {
        match self {
            Self::Scss | Self::Css => true,
            _ => false,
        }
    }

    /// The kind that files with the extension `ext` have.
    pub fn from_extension(ext: Option<&str>) -> (k: Self)
        ensures
            k == kind_of_extension(match ext {
                Some(e) => Some(e@),
                None => None,
            }),
    {
        match ext {
            None => Self::Other,
            Some(e) => if str_equal(e, "ts") {
                Self::Ts
            } else if str_equal(e, "tsx") {
                Self::Tsx
            } else if str_equal(e, "js") {
                Self::Js
            } else if str_equal(e, "jsx") {
                Self::Jsx
            } else if str_equal(e, "mjs") {
                Self::Mjs
            } else if str_equal(e, "mts") {
                Self::Mts
            } else if str_equal(e, "scss") {
                Self::Scss
            } else if str_equal(e, "css") {
                Self::Css
            } else {
                Self::Other
            },
        }
    }

    /// The kind of the file at `path`, by the extension of its name.
    pub fn from_path(path: &str) -> (k: Self)
        ensures
            k == kind_of_extension(crate::paths::path_extension(path@)),
    {
        let ext = extension_of(path);
        match &ext {
            Some(e) => Self::from_extension(Some(e.as_str())),
            None => Self::from_extension(None),
        }
    }
}

/// A source file read into a build graph.
#[derive(Clone, Debug)]
pub struct SourceNode {
    pub id: NodeId,
    pub path: String,
    pub rel_path: String,
    pub kind: SourceKind,
    pub content_hash: ContentHash,
    pub content: String,
}

/// The path of a source relative to `root`: `path` with `root` stripped, or `path` itself
/// when it does not lie under `root`.
pub open spec fn relative_path(root: Seq<char>, path: Seq<char>) -> Seq<char> {
    match crate::paths::path_strip_prefix(path, root) {
        Some(r) => r,
        None => path,
    }
}

/// The node with id `id` that a file at `path` under `root` with `content` becomes.
pub open spec fn source_node_for(root: Seq<char>, path: Seq<char>, content: Seq<char>, id: NodeId, n: SourceNode) -> bool {
    &&& n.id == id
    &&& n.path@ == path
    &&& n.rel_path@ == relative_path(root, path)
    &&& n.kind == kind_of_extension(crate::paths::path_extension(path))
    &&& n.content_hash.bytes() == blake3_digest(vstd::utf8::encode_utf8(content))
    &&& n.content@ == content
}

impl SourceNode {
    /// Whether this is a JavaScript or TypeScript source.
    pub fn is_js_like(&self) -> (r: bool)
        ensures
            r == self.kind.spec_is_js_like(),
    {
        self.kind.is_js_like()
    }

    /// Whether this is a stylesheet.
    pub fn is_css_like(&self) -> (r: bool)
        ensures
            r == self.kind.spec_is_css_like(),
    {
        self.kind.is_css_like()
    }

    /// The node for the file at `path` under `root` that holds `content`: its kind comes
    /// from the extension, its hash from the UTF-8 bytes of the content.
    pub fn from_source(root: &str, path: &str, content: String) -> (n: Self)
        ensures
            source_node_for(root@, path@, content@, NodeId(0), n),
    {
        let content_hash = ContentHash::from_bytes(content.as_str().as_bytes());
        let kind = SourceKind::from_path(path);
        let rel_path = match strip_path_prefix(path, root) {
            Some(r) => r,
            None => to_owned_string(path),
        };
        SourceNode { id: NodeId(0), path: to_owned_string(path), rel_path, kind, content_hash, content }
    }
}

/// The source files of a module, in the order they were added, with an index from path to
/// node id.
#[derive(Debug)]
pub struct BuildGraph {
    nodes: Vec<SourceNode>,
    by_path: Vec<(String, NodeId)>,
}

/// The node id stored for `path` among `entries` (the first entry with that path).
pub open spec fn find_path(entries: Seq<(String, NodeId)>, path: Seq<char>) -> Option<NodeId>
    decreases entries.len(),
{
    if entries.len() == 0 {
        None
    } else if entries[0].0@ == path {
        Some(entries[0].1)
    } else {
        find_path(entries.drop_first(), path)
    }
}

/// `find_path` finds a path exactly when some entry has it, and then the id of that entry
/// when no earlier entry has the same path.
pub proof fn lemma_find_path(entries: Seq<(String, NodeId)>, path: Seq<char>)
    ensures
        (find_path(entries, path) is Some) == (exists|i: int| 0 <= i < entries.len() && #[trigger] entries[i].0@ == path),
        forall|i: int| 0 <= i < entries.len() && entries[i].0@ == path
            && (forall|j: int| 0 <= j < i ==> #[trigger] entries[j].0@ != path)
            ==> find_path(entries, path) == Some(#[trigger] entries[i].1),
    decreases entries.len(),
{
    if entries.len() > 0 {
        let rest = entries.drop_first();
        lemma_find_path(rest, path);
        if exists|i: int| 0 <= i < rest.len() && #[trigger] rest[i].0@ == path {
            let i = choose|i: int| 0 <= i < rest.len() && #[trigger] rest[i].0@ == path;
            assert(entries[i + 1].0@ == path);
        }
        if exists|i: int| 0 <= i < entries.len() && #[trigger] entries[i].0@ == path {
            let i = choose|i: int| 0 <= i < entries.len() && #[trigger] entries[i].0@ == path;
            if i > 0 {
                assert(rest[i - 1].0@ == path);
            }
        }
        assert forall|i: int| 0 <= i < entries.len() && entries[i].0@ == path
            && (forall|j: int| 0 <= j < i ==> #[trigger] entries[j].0@ != path)
            implies find_path(entries, path) == Some(#[trigger] entries[i].1) by {
            if i > 0 {
                assert(entries[0].0@ != path);
                assert forall|j: int| 0 <= j < i - 1 implies #[trigger] rest[j].0@ != path by {
                    assert(rest[j] == entries[j + 1]);
                }
                assert(rest[i - 1] == entries[i]);
            }
        }
    }
}

/// Appending an entry for a path that is not present adds that path and changes no other.
pub proof fn lemma_find_path_push(entries: Seq<(String, NodeId)>, key: Seq<char>, id: NodeId, p: Seq<char>)
    requires
        find_path(entries, key) is None,
    ensures
        forall|s: String| s@ == key ==> #[trigger] find_path(entries.push((s, id)), p) == if p == key {
            Some(id)
        } else {
            find_path(entries, p)
        },
    decreases entries.len(),
{
    assert forall|s: String| s@ == key implies #[trigger] find_path(entries.push((s, id)), p) == if p == key {
        Some(id)
    } else {
        find_path(entries, p)
    } by {
        let e2 = entries.push((s, id));
        if entries.len() == 0 {
            assert(e2.drop_first() =~= Seq::<(String, NodeId)>::empty());
            assert(find_path(e2.drop_first(), p) is None);
            assert(find_path(entries, p) is None);
            assert(e2[0].0@ == key);
        } else {
            assert(e2.drop_first() =~= entries.drop_first().push((s, id)));
            assert(e2[0] == entries[0]);
            assert(entries[0].0@ != key);
            assert(find_path(entries.drop_first(), key) is None);
            lemma_find_path_push(entries.drop_first(), key, id, p);
            assert(find_path(entries.drop_first().push((s, id)), p) == if p == key {
                Some(id)
            } else {
                find_path(entries.drop_first(), p)
            });
        }
    }
}

/// Removing the entry of a path from distinct entries drops that path and keeps the others.
pub proof fn lemma_find_path_remove(entries: Seq<(String, NodeId)>, k: int, p: Seq<char>)
    requires
        paths_distinct(entries),
        0 <= k < entries.len(),
    ensures
        find_path(entries.remove(k), p) == if p == entries[k].0@ {
            None
        } else {
            find_path(entries, p)
        },
        paths_distinct(entries.remove(k)),
{
    let e2 = entries.remove(k);
    assert forall|i: int| 0 <= i < e2.len() implies #[trigger] e2[i] == entries[if i < k { i } else { i + 1 }] by {}
    lemma_find_path(entries, p);
    lemma_find_path(e2, p);
    if p == entries[k].0@ {
        assert forall|i: int| 0 <= i < e2.len() implies #[trigger] e2[i].0@ != p by {
            let oi = if i < k { i } else { i + 1 };
            assert(e2[i] == entries[oi]);
        }
    } else if exists|i: int| 0 <= i < entries.len() && #[trigger] entries[i].0@ == p {
        let i = choose|i: int| 0 <= i < entries.len() && #[trigger] entries[i].0@ == p;
        let ni = if i < k { i } else { i - 1 };
        assert(e2[ni] == entries[i]);
        assert forall|j: int| 0 <= j < ni implies #[trigger] e2[j].0@ != p by {
            let oj = if j < k { j } else { j + 1 };
            assert(e2[j] == entries[oj]);
        }
        assert forall|j: int| 0 <= j < i implies #[trigger] entries[j].0@ != p by {}
        assert(find_path(entries, p) == Some(entries[i].1));
        assert(find_path(e2, p) == Some(e2[ni].1));
    } else {
        assert forall|i: int| 0 <= i < e2.len() implies #[trigger] e2[i].0@ != p by {
            let oi = if i < k { i } else { i + 1 };
            assert(e2[i] == entries[oi]);
        }
    }
    assert forall|i: int, j: int| 0 <= i < j < e2.len() implies #[trigger] e2[i].0@ != #[trigger] e2[j].0@ by {
        let oi = if i < k { i } else { i + 1 };
        let oj = if j < k { j } else { j + 1 };
        assert(e2[i] == entries[oi]);
        assert(e2[j] == entries[oj]);
    }
}

/// No path appears twice.
pub open spec fn paths_distinct(entries: Seq<(String, NodeId)>) -> bool {
    forall|i: int, j: int| 0 <= i < j < entries.len() ==> #[trigger] entries[i].0@ != #[trigger] entries[j].0@
}

impl BuildGraph {
    /// The path index names no path twice, as the keys of a map never repeat.  This holds of
    /// every graph.
    #[verifier::type_invariant]
    pub closed spec fn wf(self) -> bool {
        paths_distinct(self.by_path@)
    }

    /// The nodes in order.
    pub closed spec fn spec_nodes(self) -> Seq<SourceNode> {
        self.nodes@
    }

    /// The node id the index records under the key `key` (see [`path_key`]), if any.
    pub closed spec fn key_entry(self, key: Seq<char>) -> Option<NodeId> {
        find_path(self.by_path@, key)
    }

    /// The node id recorded for `path`, if any: paths are compared as `std::path::PathBuf`
    /// compares them, by their components (see [`path_key`]).
    pub open spec fn id_of(self, path: Seq<char>) -> Option<NodeId> {
        self.key_entry(path_key(path))
    }

    /// Whether the path index names exactly the path keys of the nodes, and those are
    /// distinct.
    pub open spec fn consistent(self) -> bool {
        &&& self.wf()
        &&& forall|p: Seq<char>| (self.key_entry(p) is Some) == (exists|i: int| 0 <= i < self.spec_nodes().len() && #[trigger] path_key(self.spec_nodes()[i].path@) == p)
        &&& forall|i: int, j: int| 0 <= i < j < self.spec_nodes().len() ==> #[trigger] path_key(self.spec_nodes()[i].path@) != #[trigger] path_key(self.spec_nodes()[j].path@)
    }

    /// An empty graph.
    pub fn new() -> (g: Self)
        ensures
            g.spec_nodes().len() == 0,
            forall|p: Seq<char>| #[trigger] g.key_entry(p) is None,
            g.consistent(),
    {
        assert(paths_distinct(Seq::<(String, NodeId)>::empty()));
        BuildGraph { nodes: Vec::new(), by_path: Vec::new() }
    }

    /// The nodes in order.
    pub fn nodes(&self) -> (r: &[SourceNode])
        ensures
            r@ == self.spec_nodes(),
    {
        self.nodes.as_slice()
    }

    /// The node with id `id`, or an `UnknownNode` error.
    pub fn node(&self, id: NodeId) -> (r: Result<&SourceNode, Error>)
        ensures
            id.0 < self.spec_nodes().len() ==> (r matches Ok(n) && *n == self.spec_nodes()[id.0 as int]),
            id.0 >= self.spec_nodes().len() ==> (r matches Err(Error::UnknownNode(i)) && i == id),
    {
        let i = id.raw() as usize;
        if i < self.nodes.len() {
            Ok(&self.nodes[i])
        } else {
            Err(Error::UnknownNode(id))
        }
    }

    /// The node id recorded for `path`.
    pub fn lookup(&self, path: &str) -> (r: Option<NodeId>)
        ensures
            r == self.id_of(path@),
    {
        let key = path_key_of(path);
        match self.position_of(key.as_str()) {
            Some(k) => Some(self.by_path[k].1),
            None => None,
        }
    }

    /// The position in the index of the entry under the key `path`.
    fn position_of(&self, path: &str) -> (r: Option<usize>)
        ensures
            match r {
                Some(k) => k < self.by_path@.len() && self.by_path@[k as int].0@ == path@
                    && self.key_entry(path@) == Some(self.by_path@[k as int].1),
                None => self.key_entry(path@) is None,
            },
    {
        let mut k: usize = 0;
        while k < self.by_path.len()
            invariant
                k <= self.by_path@.len(),
                forall|j: int| 0 <= j < k ==> #[trigger] self.by_path@[j].0@ != path@,
            decreases self.by_path@.len() - k,
        {
            if str_equal(self.by_path[k].0.as_str(), path) {
                proof { lemma_find_path(self.by_path@, path@); }
                return Some(k);
            }
            k += 1;
        }
        proof { lemma_find_path(self.by_path@, path@); }
        None
    }

    /// Adds `node` under the next id (the number of nodes, as a `u32`), unless a node with
    /// its path is already recorded, which is a `Plan` error.
    pub fn insert(&mut self, node: SourceNode) -> (r: Result<NodeId, Error>)
        ensures
            old(self).id_of(node.path@) is Some ==> (r matches Err(Error::Plan(m))
                && m@ == "duplicate node for path "@ + node.path@ && *final(self) == *old(self)),
            old(self).id_of(node.path@) is None ==> (r matches Ok(id)
                && id == NodeId(old(self).spec_nodes().len() as u32)
                && final(self).spec_nodes() == old(self).spec_nodes().push((SourceNode { id, ..node }))
                && forall|p: Seq<char>| #[trigger] final(self).key_entry(p) == if p == path_key(node.path@) {
                    Some(id)
                } else {
                    old(self).key_entry(p)
                }),
            final(self).wf(),
            old(self).consistent() ==> final(self).consistent(),
    {
        proof {
            use_type_invariant(&*self);
        }
        let key = path_key_of(node.path.as_str());
        if self.position_of(key.as_str()).is_some() {
            let mut m = to_owned_string("duplicate node for path ");
            m.push_str(node.path.as_str());
            return Err(Error::Plan(m));
        }
        let ghost old_self = *self;
        let id = NodeId(self.nodes.len() as u32);
        let mut node = node;
        node.id = id;
        let mut by_path: Vec<(String, NodeId)> = Vec::new();
        std::mem::swap(&mut by_path, &mut self.by_path);
        let mut nodes: Vec<SourceNode> = Vec::new();
        std::mem::swap(&mut nodes, &mut self.nodes);
        by_path.push((key, id));
        nodes.push(node);
        proof {
            let e = by_path@;
            lemma_find_path(old_self.by_path@, key@);
            if old_self.wf()
            {
            assert forall|i: int, j: int| 0 <= i < j < e.len() implies #[trigger] e[i].0@ != #[trigger] e[j].0@ by {
                if j == e.len() - 1 {
                    assert(e[i] == old_self.by_path@[i]);
                } else {
                    assert(e[i] == old_self.by_path@[i]);
                    assert(e[j] == old_self.by_path@[j]);
                }
            }
            }
        }
        self.by_path = by_path;
        self.nodes = nodes;
        proof {
            assert forall|p: Seq<char>| #[trigger] find_path(self.by_path@, p) == if p == path_key(node.path@) {
                Some(id)
            } else {
                find_path(old_self.by_path@, p)
            } by {
                lemma_find_path_push(old_self.by_path@, key@, id, p);
            }
            assert(self.nodes@ == old_self.nodes@.push(node));
            if old_self.consistent() {
                let ns = self.nodes@;
                assert forall|p: Seq<char>| (self.key_entry(p) is Some) == (exists|i: int| 0 <= i < ns.len() && #[trigger] path_key(ns[i].path@) == p) by {
                    if p == path_key(node.path@) {
                        assert(path_key(ns[ns.len() - 1].path@) == p);
                    } else if old_self.key_entry(p) is Some {
                        let i = choose|i: int| 0 <= i < old_self.nodes@.len() && #[trigger] path_key(old_self.nodes@[i].path@) == p;
                        assert(ns[i] == old_self.nodes@[i]);
                    } else {
                        assert forall|i: int| 0 <= i < ns.len() implies #[trigger] path_key(ns[i].path@) != p by {
                            if i < ns.len() - 1 {
                                assert(ns[i] == old_self.nodes@[i]);
                            }
                        }
                    }
                }
                assert forall|i: int, j: int| 0 <= i < j < ns.len() implies #[trigger] path_key(ns[i].path@) != #[trigger] path_key(ns[j].path@) by {
                    assert(ns[i] == old_self.nodes@[i]);
                    if j < ns.len() - 1 {
                        assert(ns[j] == old_self.nodes@[j]);
                    } else {
                        if path_key(ns[i].path@) == path_key(node.path@) {
                            assert(exists|k: int| 0 <= k < old_self.nodes@.len() && #[trigger] path_key(old_self.nodes@[k].path@) == path_key(node.path@));
                        }
                    }
                }
            }
        }
        Ok(id)
    }
}

/// What removing the node at `id` does to the graph `old`, giving `new` and `r`.
pub open spec fn remove_effect(old: BuildGraph, new: BuildGraph, id: NodeId, r: Option<SourceNode>) -> bool {
    if id.0 < old.spec_nodes().len() {
        let removed = old.spec_nodes()[id.0 as int];
        &&& r == Some(removed)
        &&& new.spec_nodes() == old.spec_nodes().remove(id.0 as int)
        &&& new.wf()
        &&& forall|p: Seq<char>| #[trigger] new.key_entry(p) == if p == path_key(removed.path@) {
            None
        } else {
            old.key_entry(p)
        }
        &&& old.consistent() ==> new.consistent()
    } else {
        &&& r is None
        &&& new == old
    }
}

impl BuildGraph {
    /// Removes the node at `id` and the index entry of its path; the nodes after it move
    /// down by one.  `None`, and no change, when there is no node at `id`.
    pub fn remove(&mut self, id: NodeId) -> (r: Option<SourceNode>)
        ensures
            remove_effect(*old(self), *final(self), id, r),
    {
        proof {
            use_type_invariant(&*self);
        }
        let i = id.raw() as usize;
        if i >= self.nodes.len() {
            return None;
        }
        let ghost old_self = *self;
        let ghost removed = self.nodes@[i as int];
        let key = path_key_of(self.nodes[i].path.as_str());
        match self.position_of(key.as_str()) {
            Some(k) => {
                proof {
                    if old_self.wf() {
                        assert forall|p: Seq<char>| #[trigger] find_path(old_self.by_path@.remove(k as int), p) == if p == path_key(removed.path@) {
                            None
                        } else {
                            find_path(old_self.by_path@, p)
                        } by {
                            lemma_find_path_remove(old_self.by_path@, k as int, p);
                        }
                        lemma_find_path_remove(old_self.by_path@, k as int, path_key(removed.path@));
                    }
                }
                let mut by_path: Vec<(String, NodeId)> = Vec::new();
                std::mem::swap(&mut by_path, &mut self.by_path);
                by_path.remove(k);
                self.by_path = by_path;
            },
            None => {},
        }
        let mut nodes: Vec<SourceNode> = Vec::new();
        std::mem::swap(&mut nodes, &mut self.nodes);
        let node = nodes.remove(i);
        self.nodes = nodes;
        proof {
            if old_self.consistent() {
                let ns = self.nodes@;
                let os = old_self.nodes@;
                assert forall|j: int| 0 <= j < ns.len() implies #[trigger] ns[j] == os[if j < i { j } else { j + 1 }] by {}
                assert(old_self.id_of(removed.path@) is Some);
                assert forall|p: Seq<char>| (self.key_entry(p) is Some) == (exists|j: int| 0 <= j < ns.len() && #[trigger] path_key(ns[j].path@) == p) by {
                    if p == path_key(removed.path@) {
                        assert forall|j: int| 0 <= j < ns.len() implies #[trigger] path_key(ns[j].path@) != p by {
                            let oj = if j < i { j } else { j + 1 };
                            assert(ns[j] == os[oj]);
                        }
                    } else if old_self.key_entry(p) is Some {
                        let j = choose|j: int| 0 <= j < os.len() && #[trigger] path_key(os[j].path@) == p;
                        let nj = if j < i { j } else { j - 1 };
                        assert(ns[nj] == os[j]);
                    } else {
                        assert forall|j: int| 0 <= j < ns.len() implies #[trigger] path_key(ns[j].path@) != p by {
                            let oj = if j < i { j } else { j + 1 };
                            assert(ns[j] == os[oj]);
                        }
                    }
                }
                assert forall|a: int, b: int| 0 <= a < b < ns.len() implies #[trigger] path_key(ns[a].path@) != #[trigger] path_key(ns[b].path@) by {
                    let oa = if a < i { a } else { a + 1 };
                    let ob = if b < i { b } else { b + 1 };
                    assert(ns[a] == os[oa]);
                    assert(ns[b] == os[ob]);
                }
            }
        }
        Some(node)
    }

    /// Removes the node that the index records for `path`, and returns its id.
    pub fn remove_by_path(&mut self, path: &str) -> (r: Option<NodeId>)
        ensures
            r == old(self).id_of(path@),
            match r {
                Some(id) => exists|n: Option<SourceNode>| remove_effect(*old(self), *final(self), id, n),
                None => *final(self) == *old(self),
            },
    {
        let id = self.lookup(path)?;
        let n = self.remove(id);
        Some(id)
    }

    /// Removes every node and index entry.
    pub fn clear(&mut self)
        ensures
            final(self).spec_nodes().len() == 0,
            forall|p: Seq<char>| #[trigger] final(self).key_entry(p) is None,
            final(self).consistent(),
    {
        proof {
            use_type_invariant(&*self);
        }
        self.nodes = Vec::new();
        self.by_path = Vec::new();
        assert(paths_distinct(self.by_path@));
    }

    /// Puts `node` at `id` in place of the node there, keeping the id; the new node must have
    /// the same path.  An `UnknownNode` error when there is no node at `id`, a `Plan` error
    /// when the paths differ; the graph is unchanged on error.
    pub fn replace(&mut self, id: NodeId, node: SourceNode) -> (r: Result<(), Error>)
        ensures
            id.0 >= old(self).spec_nodes().len() ==> (r matches Err(Error::UnknownNode(i)) && i == id
                && *final(self) == *old(self)),
            id.0 < old(self).spec_nodes().len() && path_key(old(self).spec_nodes()[id.0 as int].path@) != path_key(node.path@)
                ==> (r matches Err(Error::Plan(m)) && m@ == replace_message(id, old(self).spec_nodes()[id.0 as int].path@, node.path@)
                && *final(self) == *old(self)),
            id.0 < old(self).spec_nodes().len() && path_key(old(self).spec_nodes()[id.0 as int].path@) == path_key(node.path@)
                ==> (r is Ok && final(self).spec_nodes() == old(self).spec_nodes().update(id.0 as int, (SourceNode { id, ..node }))
                && forall|p: Seq<char>| #[trigger] final(self).key_entry(p) == old(self).key_entry(p)),
            final(self).wf(),
            old(self).consistent() ==> final(self).consistent(),
    {
        proof {
            use_type_invariant(&*self);
        }
        let i = id.raw() as usize;
        if i >= self.nodes.len() {
            return Err(Error::UnknownNode(id));
        }
        if !str_equal(path_key_of(self.nodes[i].path.as_str()).as_str(), path_key_of(node.path.as_str()).as_str()) {
            let mut m = to_owned_string("replace at NodeId(");
            let n = crate::text::u64_to_decimal(id.0 as u64);
            m.push_str(n.as_str());
            m.push_str(") would change path from ");
            m.push_str(self.nodes[i].path.as_str());
            m.push_str(" to ");
            m.push_str(node.path.as_str());
            return Err(Error::Plan(m));
        }
        let ghost old_self = *self;
        let mut node = node;
        node.id = id;
        let mut nodes: Vec<SourceNode> = Vec::new();
        std::mem::swap(&mut nodes, &mut self.nodes);
        nodes.set(i, node);
        self.nodes = nodes;
        proof {
            if old_self.consistent() {
                let ns = self.nodes@;
                let os = old_self.nodes@;
                assert forall|j: int| 0 <= j < ns.len() implies #[trigger] path_key(ns[j].path@) == path_key(os[j].path@) by {}
                assert forall|p: Seq<char>| (self.key_entry(p) is Some) == (exists|j: int| 0 <= j < ns.len() && #[trigger] path_key(ns[j].path@) == p) by {
                    assert(self.key_entry(p) == old_self.key_entry(p));
                    if exists|j: int| 0 <= j < os.len() && #[trigger] path_key(os[j].path@) == p {
                        let j = choose|j: int| 0 <= j < os.len() && #[trigger] path_key(os[j].path@) == p;
                        assert(path_key(ns[j].path@) == p);
                    }
                    if exists|j: int| 0 <= j < ns.len() && #[trigger] path_key(ns[j].path@) == p {
                        let j = choose|j: int| 0 <= j < ns.len() && #[trigger] path_key(ns[j].path@) == p;
                        assert(path_key(os[j].path@) == p);
                    }
                }
                assert forall|a: int, b: int| 0 <= a < b < ns.len() implies #[trigger] path_key(ns[a].path@) != #[trigger] path_key(ns[b].path@) by {
                    assert(path_key(ns[a].path@) == path_key(os[a].path@));
                    assert(path_key(ns[b].path@) == path_key(os[b].path@));
                }
            }
        }
        Ok(())
    }
}

/// The message of the error for a replacement that would change the path of a node.
pub open spec fn replace_message(id: NodeId, from: Seq<char>, to: Seq<char>) -> Seq<char> {
    "replace at NodeId("@ + crate::text::decimal(id.0 as nat) + ") would change path from "@ + from + " to "@ + to
}

impl BuildGraph {
    /// The node with id `id`, for changing it in place, or an `UnknownNode` error.
    pub fn node_mut(&mut self, id: NodeId) -> (r: Result<&mut SourceNode, Error>)
        ensures
            id.0 < old(self).spec_nodes().len() ==> (r matches Ok(n) && *n == old(self).spec_nodes()[id.0 as int]
                && final(self).spec_nodes() == old(self).spec_nodes().update(id.0 as int, *final(n))
                && forall|p: Seq<char>| #[trigger] final(self).key_entry(p) == old(self).key_entry(p)),
            id.0 >= old(self).spec_nodes().len() ==> (r matches Err(Error::UnknownNode(i)) && i == id
                && *final(self) == *old(self)),
    {
        proof {
            use_type_invariant(&*self);
        }
        let i = id.raw() as usize;
        if i < self.nodes.len() {
            Ok(&mut self.nodes[i])
        } else {
            Err(Error::UnknownNode(id))
        }
    }

    /// The nodes in order, one at a time.
    pub fn iter(&self) -> (it: std::slice::Iter<'_, SourceNode>)
        ensures
            vstd::std_specs::iter::IteratorSpec::remaining(&it).len() == self.spec_nodes().len(),
            forall|i: int| 0 <= i < self.spec_nodes().len() ==> *#[trigger] vstd::std_specs::iter::IteratorSpec::remaining(&it)[i] == self.spec_nodes()[i],
    {
        broadcast use vstd::std_specs::slice::axiom_spec_slice_iter;
        self.nodes.as_slice().iter()
    }
}

/// Whether `files` names no path twice.
pub open spec fn file_paths_distinct(files: Seq<(String, String)>) -> bool {
    forall|i: int, j: int| 0 <= i < j < files.len() ==> #[trigger] path_key(files[i].0@) != #[trigger] path_key(files[j].0@)
}

/// Whether the nodes of `g` are exactly the files `files` under `root`, in order, with ids
/// counting up from zero, and the index names their paths.
pub open spec fn graph_of_files(g: BuildGraph, root: Seq<char>, files: Seq<(String, String)>) -> bool {
    &&& g.spec_nodes().len() == files.len()
    &&& forall|i: int| 0 <= i < files.len() ==> source_node_for(root, files[i].0@, files[i].1@, NodeId(i as u32), #[trigger] g.spec_nodes()[i])
    &&& forall|p: Seq<char>| #[trigger] g.key_entry(p) == match choose_file(files, p) {
        Some(i) => Some(NodeId(i as u32)),
        None => None,
    }
    &&& g.consistent()
}

/// The position of the file with path `p` in `files`, if there is one.
pub open spec fn choose_file(files: Seq<(String, String)>, p: Seq<char>) -> Option<int> {
    if exists|i: int| 0 <= i < files.len() && #[trigger] path_key(files[i].0@) == p {
        Some(choose|i: int| 0 <= i < files.len() && #[trigger] path_key(files[i].0@) == p)
    } else {
        None
    }
}

impl BuildGraph {
    /// Adds the node for the file at `path` under `root` that holds `content`.
    fn read_and_insert(&mut self, root: &str, path: &str, content: String) -> (r: Result<NodeId, Error>)
        ensures
            old(self).id_of(path@) is Some ==> (r matches Err(Error::Plan(m))
                && m@ == "duplicate node for path "@ + path@ && *final(self) == *old(self)),
            old(self).id_of(path@) is None ==> (r matches Ok(id)
                && id == NodeId(old(self).spec_nodes().len() as u32)
                && final(self).spec_nodes().len() == old(self).spec_nodes().len() + 1
                && final(self).spec_nodes().drop_last() == old(self).spec_nodes()
                && source_node_for(root@, path@, content@, id, final(self).spec_nodes().last())
                && forall|p: Seq<char>| #[trigger] final(self).key_entry(p) == if p == path_key(path@) {
                    Some(id)
                } else {
                    old(self).key_entry(p)
                }),
            old(self).consistent() ==> final(self).consistent(),
    {
        let node = SourceNode::from_source(root, path, content);
        let r = self.insert(node);
        proof {
            if r is Ok {
                assert(final(self).spec_nodes().drop_last() =~= old(self).spec_nodes());
            }
        }
        r
    }

    /// Re-reads the file at `path` under `root`, now holding `content`: the node recorded for
    /// `path` is replaced (keeping its id), or a new node is added when there is none.
    pub fn upsert(&mut self, root: &str, path: &str, content: String) -> (r: Result<NodeId, Error>)
        ensures
            match old(self).id_of(path@) {
                Some(id) => if id.0 < old(self).spec_nodes().len() && path_key(old(self).spec_nodes()[id.0 as int].path@) == path_key(path@) {
                    &&& r == Ok::<NodeId, Error>(id)
                    &&& final(self).spec_nodes().len() == old(self).spec_nodes().len()
                    &&& source_node_for(root@, path@, content@, id, final(self).spec_nodes()[id.0 as int])
                    &&& forall|i: int| 0 <= i < old(self).spec_nodes().len() && i != id.0 ==> #[trigger] final(self).spec_nodes()[i] == old(self).spec_nodes()[i]
                    &&& forall|p: Seq<char>| #[trigger] final(self).key_entry(p) == old(self).key_entry(p)
                } else if id.0 >= old(self).spec_nodes().len() {
                    r matches Err(Error::UnknownNode(i)) && i == id && *final(self) == *old(self)
                } else {
                    r matches Err(Error::Plan(m)) && m@ == replace_message(id, old(self).spec_nodes()[id.0 as int].path@, path@)
                        && *final(self) == *old(self)
                },
                None => r matches Ok(id)
                    && id == NodeId(old(self).spec_nodes().len() as u32)
                    && final(self).spec_nodes().len() == old(self).spec_nodes().len() + 1
                    && final(self).spec_nodes().drop_last() == old(self).spec_nodes()
                    && source_node_for(root@, path@, content@, id, final(self).spec_nodes().last())
                    && forall|p: Seq<char>| #[trigger] final(self).key_entry(p) == if p == path_key(path@) {
                        Some(id)
                    } else {
                        old(self).key_entry(p)
                    },
            },
            old(self).consistent() ==> final(self).consistent(),
    {
        match self.lookup(path) {
            Some(id) => {
                let node = SourceNode::from_source(root, path, content);
                match self.replace(id, node) {
                    Ok(()) => Ok(id),
                    Err(e) => Err(e),
                }
            },
            None => self.read_and_insert(root, path, content),
        }
    }

    /// Empties the graph and adds the nodes for `files`, the (path, content) pairs read from
    /// the files under `root`, in order.  Stops with the `Plan` error of [`BuildGraph::insert`]
    /// at the first path that repeats an earlier one.
    pub fn refresh_from_disk(&mut self, root: &str, files: Vec<(String, String)>) -> (r: Result<(), Error>)
        ensures
            file_paths_distinct(files@) ==> r is Ok && graph_of_files(*final(self), root@, files@),
            !file_paths_distinct(files@) ==> r matches Err(Error::Plan(_)),
    {
        self.clear();
        self.insert_files(root, files)
    }

    /// Adds the nodes for `files` to an empty graph.
    #[verifier::loop_isolation(false)]
    fn insert_files(&mut self, root: &str, files: Vec<(String, String)>) -> (r: Result<(), Error>)
        requires
            old(self).spec_nodes().len() == 0,
            forall|p: Seq<char>| #[trigger] old(self).key_entry(p) is None,
            old(self).consistent(),
        ensures
            file_paths_distinct(files@) ==> r is Ok && graph_of_files(*final(self), root@, files@),
            !file_paths_distinct(files@) ==> r matches Err(Error::Plan(_)),
    {
        let ghost fs = files@;
        let mut k: usize = 0;
        let total = files.len();
        let mut files = files;
        assert(fs.skip(0) =~= fs);
        assert(fs.take(0) =~= Seq::<(String, String)>::empty());
        proof {
            assert forall|p: Seq<char>| #[trigger] self.key_entry(p) == match choose_file(fs.take(0), p) {
                Some(i) => Some(NodeId(i as u32)),
                None => None,
            } by {
                lemma_choose_file(fs.take(0), p);
            }
        }
        while files.len() > 0
            invariant
                files@ == fs.skip(k as int),
                k <= fs.len(),
                fs.len() == total,
                file_paths_distinct(fs.take(k as int)),
                graph_of_files(*self, root@, fs.take(k as int)),
            decreases files@.len(),
        {
            let (path, content) = files.remove(0);
            assert((path, content) == fs[k as int]);
            assert(files@ =~= fs.skip(k + 1));
            let ghost before = *self;
            proof {
                lemma_choose_file(fs.take(k as int), path_key(path@));
            }
            match self.read_and_insert(root, path.as_str(), content) {
                Ok(_) => {},
                Err(e) => {
                    proof {
                        assert(before.id_of(path@) is Some);
                        let i = choose_file(fs.take(k as int), path_key(path@))->0;
                        assert(fs.take(k as int)[i] == fs[i]);
                        assert(path_key(fs[i].0@) == path_key(fs[k as int].0@));
                        assert(!file_paths_distinct(fs));
                    }
                    return Err(e);
                },
            }
            proof {
                let t = fs.take(k + 1);
                assert(t.drop_last() =~= fs.take(k as int));
                assert forall|i: int, j: int| 0 <= i < j < t.len() implies #[trigger] path_key(t[i].0@) != #[trigger] path_key(t[j].0@) by {
                    if j == k {
                        if path_key(t[i].0@) == path_key(t[j].0@) {
                            assert(path_key(fs.take(k as int)[i].0@) == path_key(path@));
                        }
                    } else {
                        assert(fs.take(k as int)[i] == t[i] && fs.take(k as int)[j] == t[j]);
                    }
                }
                lemma_choose_file(t, path_key(path@));
                assert forall|i: int| 0 <= i < t.len() implies source_node_for(root@, t[i].0@, t[i].1@, NodeId(i as u32), #[trigger] self.spec_nodes()[i]) by {
                    if i < k {
                        assert(self.spec_nodes()[i] == before.spec_nodes()[i]);
                        assert(t[i] == fs.take(k as int)[i]);
                    }
                }
                assert forall|p: Seq<char>| #[trigger] self.key_entry(p) == match choose_file(t, p) {
                    Some(i) => Some(NodeId(i as u32)),
                    None => None,
                } by {
                    lemma_choose_file(t, p);
                    lemma_choose_file(fs.take(k as int), p);
                    if p != path_key(path@) {
                        if exists|i: int| 0 <= i < t.len() && #[trigger] path_key(t[i].0@) == p {
                            let i = choose|i: int| 0 <= i < t.len() && #[trigger] path_key(t[i].0@) == p;
                            assert(fs.take(k as int)[i] == t[i]);
                        }
                        if exists|i: int| 0 <= i < k && #[trigger] path_key(fs.take(k as int)[i].0@) == p {
                            let i = choose|i: int| 0 <= i < k && #[trigger] path_key(fs.take(k as int)[i].0@) == p;
                            assert(fs.take(k as int)[i] == t[i]);
                        }
                    }
                }
            }
            k += 1;
        }
        assert(fs.skip(k as int).len() == 0);
        assert(fs.take(k as int) =~= fs);
        Ok(())
    }
}

/// With distinct paths, `choose_file` finds the one position of a path.
pub proof fn lemma_choose_file(files: Seq<(String, String)>, p: Seq<char>)
    ensures
        choose_file(files, p) is None == (forall|i: int| 0 <= i < files.len() ==> #[trigger] path_key(files[i].0@) != p),
        choose_file(files, p) matches Some(i) ==> 0 <= i < files.len() && path_key(files[i].0@) == p,
        file_paths_distinct(files) ==> forall|i: int| 0 <= i < files.len() && #[trigger] path_key(files[i].0@) == p ==> choose_file(files, p) == Some(i),
{
}


/// Removing the node that an insertion just added undoes the insertion: the nodes and the
/// path index are as before, and the removed node is the inserted one.
pub proof fn law_insert_then_remove(
    g0: BuildGraph,
    g1: BuildGraph,
    g2: BuildGraph,
    node: SourceNode,
    id: NodeId,
    r: Option<SourceNode>,
)
    requires
        g0.wf(),
        g0.spec_nodes().len() < u32::MAX,
        g0.id_of(node.path@) is None,
        id == NodeId(g0.spec_nodes().len() as u32),
        g1.spec_nodes() == g0.spec_nodes().push((SourceNode { id, ..node })),
        forall|p: Seq<char>| #[trigger] g1.key_entry(p) == if p == path_key(node.path@) {
            Some(id)
        } else {
            g0.key_entry(p)
        },
        g1.wf(),
        remove_effect(g1, g2, id, r),
    ensures
        g2.spec_nodes() == g0.spec_nodes(),
        forall|p: Seq<char>| #[trigger] g2.key_entry(p) == g0.key_entry(p),
        r == Some(SourceNode { id, ..node }),
{
    assert(id.0 == g0.spec_nodes().len());
    assert(g1.spec_nodes()[id.0 as int] == (SourceNode { id, ..node }));
    assert(g2.spec_nodes() =~= g0.spec_nodes());
    assert forall|p: Seq<char>| #[trigger] g2.key_entry(p) == g0.key_entry(p) by {
        if p != path_key(node.path@) {
            assert(g1.key_entry(p) == g0.key_entry(p));
        }
    }
}

} // verus!
