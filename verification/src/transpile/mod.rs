use vstd::prelude::*;

pub mod css;
pub mod js;

use std::sync::Arc;

use crate::env::BuildEnvironment;
use crate::text::str_equal;

verus! {

/// The code a transpiler produced, and its source map if one was asked for.
#[derive(Debug, Clone)]
pub struct TranspileOutput {
    pub code: String,
    pub source_map: Option<String>,
}

/// What a transpiler needs to know about the build it runs in.
pub struct TranspileContext {
    pub env: Arc<BuildEnvironment>,
    pub timestamp: u128,
    dep_timestamps: Vec<(String, u128)>,
}

/// The timestamp recorded for `name` among `entries` (the first entry with that name).
pub open spec fn find_timestamp(entries: Seq<(String, u128)>, name: Seq<char>) -> Option<u128>
    decreases entries.len(),
{
    if entries.len() == 0 {
        None
    } else if entries[0].0@ == name {
        Some(entries[0].1)
    } else {
        find_timestamp(entries.drop_first(), name)
    }
}

/// A timestamp that `find_timestamp` finds is the timestamp of some entry.
pub proof fn lemma_find_timestamp(entries: Seq<(String, u128)>, name: Seq<char>)
    ensures
        find_timestamp(entries, name) matches Some(t) ==> exists|k: int| 0 <= k < entries.len() && #[trigger] entries[k].1 == t,
    decreases entries.len(),
{
    if entries.len() > 0 && entries[0].0@ != name {
        lemma_find_timestamp(entries.drop_first(), name);
        if let Some(t) = find_timestamp(entries, name) {
            let k = choose|k: int| 0 <= k < entries.drop_first().len() && #[trigger] entries.drop_first()[k].1 == t;
            assert(entries[k + 1].1 == t);
        }
    } else if entries.len() > 0 {
        assert(entries[0].1 == entries[0].1);
    }
}

impl TranspileContext {
    /// The (module name, timestamp) pairs of the dependencies.
    pub closed spec fn spec_dep_timestamps(&self) -> Seq<(String, u128)> {
        self.dep_timestamps@
    }

    /// The build flags.
    pub closed spec fn spec_env(&self) -> Arc<BuildEnvironment> {
        self.env
    }

    /// The time of this build.
    pub closed spec fn spec_timestamp(&self) -> u128 {
        self.timestamp
    }

    /// A context for a build at `timestamp` whose dependencies were last built at the given
    /// times.
    pub fn new(env: Arc<BuildEnvironment>, timestamp: u128, dep_timestamps: Vec<(String, u128)>) -> (c: Self)
        ensures
            c.spec_env() == env,
            c.spec_timestamp() == timestamp,
            c.spec_dep_timestamps() == dep_timestamps@,
    {
        Self { env, timestamp, dep_timestamps }
    }

    /// Whether this is a development build.
    pub fn is_dev(&self) -> (r: bool)
        ensures
            r == self.spec_env().dev,
    {
        self.env.dev
    }

    /// The time of this build.
    pub fn build_timestamp(&self) -> (r: u128)
        ensures
            r == self.spec_timestamp(),
    {
        self.timestamp
    }

    /// The time the dependency `module_name` was last built, if known.
    pub fn resolve_dep_timestamp(&self, module_name: &str) -> (r: Option<u128>)
        ensures
            r == find_timestamp(self.spec_dep_timestamps(), module_name@),
    {
        let mut k: usize = 0;
        assert(self.dep_timestamps@.skip(0) =~= self.dep_timestamps@);
        while k < self.dep_timestamps.len()
            invariant
                k <= self.dep_timestamps@.len(),
                find_timestamp(self.dep_timestamps@, module_name@) == find_timestamp(self.dep_timestamps@.skip(k as int), module_name@),
            decreases self.dep_timestamps@.len() - k,
        {
            assert(self.dep_timestamps@.skip(k as int).drop_first() =~= self.dep_timestamps@.skip(k + 1));
            if str_equal(self.dep_timestamps[k].0.as_str(), module_name) {
                return Some(self.dep_timestamps[k].1);
            }
            k += 1;
        }
        None
    }
}

} // verus!
