use vstd::prelude::*;

use crate::build::graph::{BuildGraph, SourceKind, SourceNode};
use crate::error::Error;
use crate::paths::extension_of;

verus! {

/// Whether a file with extension `ext` is one the build reads: a JavaScript, TypeScript or
/// stylesheet source.
pub open spec fn interesting_extension(ext: Option<Seq<char>>) -> bool {
    !(crate::build::graph::kind_of_extension(ext) is Other)
}

/// Whether the file at `path` has one of the extensions `ts`, `tsx`, `js`, `jsx`, `mjs`,
/// `mts`, `scss` or `css`.
pub fn is_interesting(path: &str) -> (r: bool)
    ensures
        r == interesting_extension(crate::paths::path_extension(path@)),
{
    let ext = extension_of(path);
    let kind = match &ext {
        Some(e) => SourceKind::from_extension(Some(e.as_str())),
        None => SourceKind::from_extension(None),
    };
    !matches!(kind, SourceKind::Other)
}

/// A build graph of the files `files` under `root`, given as (path, content) pairs in the
/// order the walk of `root` found them.
pub fn build_graph(root: &str, files: Vec<(String, String)>) -> (r: Result<BuildGraph, Error>)
    ensures
        crate::build::graph::file_paths_distinct(files@) ==> (r matches Ok(g)
            && crate::build::graph::graph_of_files(g, root@, files@)),
        !crate::build::graph::file_paths_distinct(files@) ==> r matches Err(Error::Plan(_)),
{
    let mut graph = BuildGraph::new();
    match graph.refresh_from_disk(root, files) {
        Ok(()) => Ok(graph),
        Err(e) => Err(e),
    }
}

/// Adds the node for the file at `path` under `root`, which holds `content`.
pub fn read_into(graph: &mut BuildGraph, root: &str, path: &str, content: String) -> (r: Result<(), Error>)
    ensures
        old(graph).id_of(path@) is Some ==> (r matches Err(Error::Plan(m))
            && m@ == "duplicate node for path "@ + path@ && *final(graph) == *old(graph)),
        old(graph).id_of(path@) is None ==> (r is Ok
            && final(graph).spec_nodes().len() == old(graph).spec_nodes().len() + 1
            && final(graph).spec_nodes().drop_last() == old(graph).spec_nodes()
            && crate::build::graph::source_node_for(root@, path@, content@,
                crate::build::graph::NodeId(old(graph).spec_nodes().len() as u32), final(graph).spec_nodes().last())
            && forall|k: Seq<char>| #[trigger] final(graph).key_entry(k) == if k == crate::paths::path_key(path@) {
                Some(crate::build::graph::NodeId(old(graph).spec_nodes().len() as u32))
            } else {
                old(graph).key_entry(k)
            }),
        old(graph).consistent() ==> final(graph).consistent(),
{
    let node = SourceNode::from_source(root, path, content);
    let r = graph.insert(node);
    proof {
        if r is Ok {
            assert(final(graph).spec_nodes().drop_last() =~= old(graph).spec_nodes());
        }
    }
    match r {
        Ok(_) => Ok(()),
        Err(e) => Err(e),
    }
}

} // verus!
