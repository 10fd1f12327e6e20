use vstd::prelude::*;

use crate::error::Error;
use crate::text::{char_is_whitespace, str_chars};

verus! {

/// The name of a module: not empty, and without whitespace.
#[derive(Clone, Debug, Eq, Hash, Ord, PartialOrd, PartialEq)]
pub struct ModuleIdentifier(String);

/// Whether `s` is a valid module name: not empty, and without whitespace.
pub open spec fn is_module_identifier(s: Seq<char>) -> bool {
    s.len() > 0 && forall|i: int| 0 <= i < s.len() ==> !crate::text::is_whitespace(#[trigger] s[i])
}

impl ModuleIdentifier {
    /// The name as characters.
    pub closed spec fn text(&self) -> Seq<char> {
        self.0@
    }

    /// The identifier `s`, or an `InvalidIdentifier` error holding `s` when it is empty or
    /// holds whitespace.
    pub fn new(s: String) -> (r: Result<Self, Error>)
        ensures
            is_module_identifier(s@) ==> (r matches Ok(id) && id.text() == s@),
            !is_module_identifier(s@) ==> (r matches Err(Error::InvalidIdentifier(t)) && t == s),
    {
        let chars = str_chars(s.as_str());
        if chars.len() == 0 {
            return Err(Error::InvalidIdentifier(s));
        }
        let mut i: usize = 0;
        while i < chars.len()
            invariant
                i <= chars@.len(),
                chars@ == s@,
                forall|k: int| 0 <= k < i ==> !crate::text::is_whitespace(#[trigger] chars@[k]),
            decreases chars@.len() - i,
        {
            if char_is_whitespace(chars[i]) {
                return Err(Error::InvalidIdentifier(s));
            }
            i += 1;
        }
        Ok(Self(s))
    }

    /// The name.
    pub fn as_str(&self) -> (r: &str)
        ensures
            r@ == self.text(),
    {
        self.0.as_str()
    }
}

/// The entry files a module declares.
#[derive(Clone, Debug, Default, Eq, PartialEq)]
pub struct MetadataEntries {
    pub js: Option<String>,
    pub css: Option<String>,
}

/// The contents of a module's `metadata.json`.
#[derive(Clone, Debug)]
pub struct Metadata {
    pub name: String,
    pub tags: Vec<String>,
    pub preview: Option<String>,
    pub version: String,
    pub authors: Vec<String>,
    pub description: String,
    pub readme: Option<String>,
    pub entries: MetadataEntries,
    /// The modules this one depends on, each with its version requirement as written,
    /// sorted by name.
    pub dependencies: Vec<(ModuleIdentifier, String)>,
    pub has_mixins: Option<bool>,
    pub has_vault: Option<bool>,
}

impl Metadata {
    /// Whether the module declares a script entry.
    pub fn has_js(&self) -> (r: bool)
        ensures
            r == self.entries.js is Some,
    {
        self.entries.js.is_some()
    }

    /// Whether the module declares a stylesheet entry.
    pub fn has_css(&self) -> (r: bool)
        ensures
            r == self.entries.css is Some,
    {
        self.entries.css.is_some()
    }

    /// The directory that holds the metadata file at `metadata_path`.
    pub fn module_root_from(&self, metadata_path: &str) -> (r: Option<String>)
        ensures
            match r {
                Some(p) => crate::paths::path_parent(metadata_path@) == Some(p@),
                None => crate::paths::path_parent(metadata_path@) is None,
            },
    {
        crate::paths::parent_of(metadata_path)
    }
}

/// A version as the semver crate reads it: three numbers, and the pre-release and build
/// parts (empty when absent).
#[derive(Clone, Debug)]
pub struct SemVersion {
    pub major: u64,
    pub minor: u64,
    pub patch: u64,
    pub pre: String,
    pub build: String,
}

/// What `semver::Version::from_str` makes of `text`: the numbers and the pre-release and
/// build parts, or `None` when it refuses the text.
pub uninterp spec fn semver_parse(text: Seq<char>) -> Option<(u64, u64, u64, Seq<char>, Seq<char>)>;

/// Reads `text` with `semver::Version::from_str`.  The contract claims only that the outcome
/// is the one [`semver_parse`] names for the text; the semver grammar is not restated.
#[verifier::external_body]
fn parse_semver(text: &str) -> (r: Option<SemVersion>)
    ensures
        match r {
            Some(v) => semver_parse(text@) == Some((v.major, v.minor, v.patch, v.pre@, v.build@)),
            None => semver_parse(text@) is None,
        },
{
    match text.parse::<semver::Version>() {
        Ok(v) => Some(SemVersion {
            major: v.major,
            minor: v.minor,
            patch: v.patch,
            pre: v.pre.as_str().to_owned(),
            build: v.build.as_str().to_owned(),
        }),
        Err(_) => None,
    }
}

impl Metadata {
    /// The module's version read as a semantic version, if it is one.
    pub fn parse_version(&self) -> (r: Option<SemVersion>)
        ensures
            match r {
                Some(v) => semver_parse(self.version@) == Some((v.major, v.minor, v.patch, v.pre@, v.build@)),
                None => semver_parse(self.version@) is None,
            },
    {
        parse_semver(self.version.as_str())
    }
}

} // verus!
