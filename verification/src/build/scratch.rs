use vstd::prelude::*;

use crate::text::{decimal, to_owned_string, u64_to_decimal};

verus! {

/// The name of the scratch file numbered `n` with extension `ext`.
pub open spec fn scratch_file_name(n: nat, ext: Seq<char>) -> Seq<char> {
    "scratch-"@ + decimal(n) + seq!['.'] + ext
}

/// The name of the scratch directory of process `pid`, session `n`.
pub open spec fn scratch_dir_name(pid: nat, n: nat) -> Seq<char> {
    "creator-scratch-"@ + decimal(pid) + seq!['-'] + decimal(n)
}

/// The name of the scratch directory of process `pid`, session `n`
/// (`creator-scratch-<pid>-<n>`, placed in the system's temporary directory).
pub fn scratch_dir_name_for(pid: u32, n: u64) -> (r: String)
    ensures
        r@ == scratch_dir_name(pid as nat, n as nat),
{
    let mut r = to_owned_string("creator-scratch-");
    let p = u64_to_decimal(pid as u64);
    r.push_str(p.as_str());
    r.push('-');
    let q = u64_to_decimal(n);
    r.push_str(q.as_str());
    assert(r@ =~= scratch_dir_name(pid as nat, n as nat));
    r
}

/// A directory for temporary files, handing out fresh file names in it.
pub struct ScratchSession {
    dir: String,
    counter: u64,
}

impl ScratchSession {
    /// The directory.
    pub closed spec fn spec_dir(&self) -> Seq<char> {
        self.dir@
    }

    /// The number of the next file.
    pub closed spec fn spec_counter(&self) -> u64 {
        self.counter
    }

    /// A session in the (existing) directory `dir`, numbering files from zero.
    pub fn in_dir(dir: String) -> (s: Self)
        ensures
            s.spec_dir() == dir@,
            s.spec_counter() == 0,
    {
        Self { dir, counter: 0 }
    }

    /// The directory.
    pub fn dir(&self) -> (r: &str)
        ensures
            r@ == self.spec_dir(),
    {
        self.dir.as_str()
    }

    /// A fresh path in the directory: `scratch-<n>.<ext>`, where `n` counts the paths handed
    /// out so far (wrapping around after 2^64 of them).
    pub fn next_path(&mut self, ext: &str) -> (r: String)
        ensures
            r@ == crate::paths::path_join(old(self).spec_dir(), scratch_file_name(old(self).spec_counter() as nat, ext@)),
            final(self).spec_dir() == old(self).spec_dir(),
            final(self).spec_counter() == old(self).spec_counter().wrapping_add(1),
    {
        let n = self.counter;
        self.counter = self.counter.wrapping_add(1);
        let mut name = to_owned_string("scratch-");
        let digits = u64_to_decimal(n);
        name.push_str(digits.as_str());
        name.push('.');
        name.push_str(ext);
        assert(name@ =~= scratch_file_name(n as nat, ext@));
        crate::paths::join_path(self.dir.as_str(), name.as_str())
    }
}

} // verus!
