use vstd::prelude::*;

use crate::text::{str_chars, to_owned_string};

verus! {

/// What to release.
#[derive(Debug)]
pub struct ReleaseSpec {
    pub inputs: Vec<String>,
    pub classmap_url: String,
    pub output_dir: String,
    pub dev: bool,
}

/// A module that was packaged: its name, its full version and its archive's file name.
#[derive(Debug, Clone)]
pub struct ArtifactEntry {
    pub id: String,
    pub version: String,
    pub zip: String,
}

/// A module that could not be packaged, and why.
#[derive(Debug, Clone)]
pub struct FailedEntry {
    pub dir: String,
    pub error: String,
}

/// The outcome of a release: the archives made, the modules that failed, and the classmap
/// the release was built against.
#[derive(Debug)]
pub struct ReleaseManifest {
    pub artifacts: Vec<ArtifactEntry>,
    pub failed: Vec<FailedEntry>,
    pub classmap_url: String,
    pub classmap_version: String,
}

/// `name` with `/`, `\` and spaces replaced by `_`.
pub open spec fn sanitized(name: Seq<char>) -> Seq<char> {
    name.map_values(|c: char| if c == '/' || c == '\\' || c == ' ' { '_' } else { c })
}

/// `name` made safe to use as a file name: `/`, `\` and spaces become `_`.
pub fn sanitize_zip_name(name: &str) -> (r: String)
    ensures
        r@ == sanitized(name@),
{
    let v = str_chars(name);
    let mut out = String::new();
    let mut i: usize = 0;
    while i < v.len()
        invariant
            i <= v@.len(),
            out@ == sanitized(v@.take(i as int)),
        decreases v@.len() - i,
    {
        let c = v[i];
        out.push(if c == '/' || c == '\\' || c == ' ' { '_' } else { c });
        assert(v@.take(i + 1) =~= v@.take(i as int).push(c));
        assert(out@ =~= sanitized(v@.take(i + 1)));
        i += 1;
    }
    assert(v@.take(i as int) =~= v@);
    out
}

/// The released version of a module: its own version with the classmap version as build
/// metadata (`<version>+<major>.<minor>.<patch>`).
pub open spec fn release_version(base: Seq<char>, classmap_version: nat) -> Seq<char> {
    base + seq!['+'] + crate::classmap::semver_display(classmap_version)
}

/// The released version of a module whose own version is `base`.
pub fn full_version(base: &str, classmap_version: u64) -> (r: String)
    ensures
        r@ == release_version(base@, classmap_version as nat),
{
    let mut r = to_owned_string(base);
    r.push('+');
    let v = crate::classmap::classmap_semver_display(classmap_version);
    r.push_str(v.as_str());
    r
}

/// The file name of a module's archive: `<id>@<version>`, made safe, with `.zip`.
pub open spec fn archive_name(id: Seq<char>, version: Seq<char>) -> Seq<char> {
    sanitized(id + seq!['@'] + version) + ".zip"@
}

/// The file name of the archive of module `id` at `version`.
pub fn zip_file_name(id: &str, version: &str) -> (r: String)
    ensures
        r@ == archive_name(id@, version@),
{
    let mut n = to_owned_string(id);
    n.push('@');
    n.push_str(version);
    let mut r = sanitize_zip_name(n.as_str());
    r.push_str(".zip");
    r
}

/// The name of the scratch directory a module is built in before packaging.
pub fn scratch_dir_name(millis: u128) -> (r: String)
    ensures
        r@ == ".scratch-"@ + crate::text::decimal(millis as nat),
{
    let mut r = to_owned_string(".scratch-");
    let d = crate::text::u128_to_decimal(millis);
    r.push_str(d.as_str());
    r
}

/// The message of a module whose build failed.
pub fn build_failure_message(id: &str, error: &str) -> (r: String)
    ensures
        r@ == "build "@ + id@ + ": "@ + error@,
{
    let mut r = to_owned_string("build ");
    r.push_str(id);
    r.push_str(": ");
    r.push_str(error);
    r
}

/// The outcomes that are archives, in order.
pub open spec fn successes(s: Seq<(String, Result<ArtifactEntry, String>)>) -> Seq<(String, Result<ArtifactEntry, String>)> {
    s.filter(|e: (String, Result<ArtifactEntry, String>)| e.1 is Ok)
}

/// The outcomes that are failures, in order.
pub open spec fn failures(s: Seq<(String, Result<ArtifactEntry, String>)>) -> Seq<(String, Result<ArtifactEntry, String>)> {
    s.filter(|e: (String, Result<ArtifactEntry, String>)| e.1 is Err)
}

/// Sorts the outcomes of packaging each input into the manifest: the archives made and
/// the inputs that failed, each in input order.
pub fn collect_manifest(
    results: Vec<(String, Result<ArtifactEntry, String>)>,
    classmap_url: String,
    classmap_version: String,
) -> (m: ReleaseManifest)
    ensures
        m.artifacts@ == successes(results@).map_values(|e: (String, Result<ArtifactEntry, String>)| e.1->Ok_0),
        m.failed@.len() == failures(results@).len(),
        forall|k: int| 0 <= k < m.failed@.len() ==> m.failed@[k].dir == (#[trigger] failures(results@)[k]).0
            && m.failed@[k].error == failures(results@)[k].1->Err_0,
        m.classmap_url == classmap_url,
        m.classmap_version == classmap_version,
{
    let ghost all = results@;
    let mut artifacts: Vec<ArtifactEntry> = Vec::new();
    let mut failed: Vec<FailedEntry> = Vec::new();
    let mut rest = results;
    let ghost mut k: int = 0;
    while rest.len() > 0
        invariant
            0 <= k <= all.len(),
            rest@ == all.skip(k),
            artifacts@ == successes(all.take(k)).map_values(|e: (String, Result<ArtifactEntry, String>)| e.1->Ok_0),
            failed@.len() == failures(all.take(k)).len(),
            forall|j: int| 0 <= j < failed@.len() ==> failed@[j].dir == (#[trigger] failures(all.take(k))[j]).0
                && failed@[j].error == failures(all.take(k))[j].1->Err_0,
        decreases rest@.len(),
    {
        let (dir, result) = rest.remove(0);
        let ghost e = all[k];
        assert(e == (dir, result));
        assert(all.take(k + 1) =~= all.take(k).push(e));
        proof {
            all.take(k).lemma_filter_push(e, |e: (String, Result<ArtifactEntry, String>)| e.1 is Ok);
            all.take(k).lemma_filter_push(e, |e: (String, Result<ArtifactEntry, String>)| e.1 is Err);
            assert(successes(all.take(k + 1)) == if e.1 is Ok { successes(all.take(k)).push(e) } else { successes(all.take(k)) });
            assert(failures(all.take(k + 1)) == if e.1 is Err { failures(all.take(k)).push(e) } else { failures(all.take(k)) });
        }
        match result {
            Ok(a) => {
                artifacts.push(a);
                assert(failures(all.take(k + 1)) == failures(all.take(k)));
                assert(artifacts@ =~= successes(all.take(k + 1)).map_values(
                    |e: (String, Result<ArtifactEntry, String>)| e.1->Ok_0,
                ));
            },
            Err(msg) => {
                failed.push(FailedEntry { dir, error: msg });
                assert(artifacts@ =~= successes(all.take(k + 1)).map_values(
                    |e: (String, Result<ArtifactEntry, String>)| e.1->Ok_0,
                ));
            },
        }
        proof {
            assert(rest@ =~= all.skip(k + 1));
            k = k + 1;
        }
    }
    assert(all.take(k) =~= all) by {
        assert(all.skip(k).len() == 0);
    }
    ReleaseManifest { artifacts, failed, classmap_url, classmap_version }
}


/// A sanitized name has the length of the name and holds no `/`, `\` or space.
pub proof fn law_sanitized_is_safe(name: Seq<char>)
    ensures
        sanitized(name).len() == name.len(),
        forall|j: int| 0 <= j < name.len() ==> #[trigger] sanitized(name)[j] != '/' && sanitized(name)[j] != '\\'
            && sanitized(name)[j] != ' ',
{
}

/// Every input of a release is accounted for exactly once: the archives made and the
/// failures together are as many as the outcomes.
pub proof fn law_every_outcome_counted(results: Seq<(String, Result<ArtifactEntry, String>)>)
    ensures
        successes(results).len() + failures(results).len() == results.len(),
    decreases results.len(),
{
    reveal(Seq::filter);
    if results.len() > 0 {
        law_every_outcome_counted(results.drop_last());
    }
}

} // verus!
