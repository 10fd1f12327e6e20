use vstd::prelude::*;

verus! {

/// Flags that select how a build is produced.
#[derive(Debug, Clone, Copy)]
pub struct BuildEnvironment {
    pub dev: bool,
    pub source_map: bool,
}

impl BuildEnvironment {
    /// The environment for a build with the given flags.
    pub fn current(dev: bool, source_map: bool) -> (env: Self)
        ensures
            env.dev == dev,
            env.source_map == source_map,
    {
        Self { dev, source_map }
    }
}

} // verus!
