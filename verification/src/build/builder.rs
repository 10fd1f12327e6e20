use vstd::prelude::*;

use crate::build::graph::{NodeId, SourceKind};
use crate::classmap::{digits_value, is_digits};
use crate::text::{str_chars, to_owned_string};

verus! {

/// Options for running a build.
#[derive(Debug, Default, Clone, Copy)]
pub struct DriverOptions {
    /// Whether files that are neither scripts nor stylesheets are copied to the output.
    pub include_unknown: bool,
}

/// The files a build wrote, by their paths relative to the source directory.
#[derive(Debug, Default, Clone)]
pub struct BuilderOutcome {
    pub transpiled: Vec<String>,
    pub copied: Vec<String>,
}

/// What a build does with a source of some kind.
#[derive(Debug, Clone, Copy, PartialEq, Eq, Structural)]
pub enum Handler {
    /// The script transpiler.
    Js,
    /// The stylesheet transpiler.
    Css,
    /// Copied as it is.
    Copy,
}

/// The handler for sources of kind `kind`.
pub open spec fn handler_of(kind: SourceKind) -> Handler {
    if kind.spec_is_js_like() {
        Handler::Js
    } else if kind.spec_is_css_like() {
        Handler::Css
    } else {
        Handler::Copy
    }
}

/// The handler for sources of kind `kind`: scripts go to the script transpiler, stylesheets
/// to the stylesheet transpiler, anything else is copied.
pub fn handler_for(kind: SourceKind) -> (h: Handler)
    ensures
        h == handler_of(kind),
{
    match kind {
        SourceKind::Js | SourceKind::Ts | SourceKind::Tsx | SourceKind::Jsx | SourceKind::Mjs | SourceKind::Mts => Handler::Js,
        SourceKind::Scss | SourceKind::Css => Handler::Css,
        SourceKind::Other => Handler::Copy,
    }
}

/// Whether a build processes a source: files of unknown kind only when asked for, and a
/// `.js` file not when a `.ts`, `.tsx`, `.jsx`, `.mjs` or `.mts` file of the same name sits
/// beside it (that file is the source and the `.js` file its output).
pub fn should_process(kind: SourceKind, options: DriverOptions, has_transpiled_sibling: bool) -> (r: bool)
    ensures
        r == if kind is Other {
            options.include_unknown
        } else {
            !(kind is Js && has_transpiled_sibling)
        },
{
    if kind == SourceKind::Other {
        return options.include_unknown;
    }
    if kind == SourceKind::Js && has_transpiled_sibling {
        return false;
    }
    true
}

/// What `std::path::Path::file_stem` returns for `path`, as text, by the path rules of the
/// target the crate is built for.
pub uninterp spec fn path_file_stem(path: Seq<char>) -> Option<Seq<char>>;

/// The file name of `path` without its extension (`std::path::Path::file_stem`); `None`
/// when the path has no file name.
#[verifier::external_body]
fn file_stem_of(path: &str) -> (r: Option<String>)
    ensures
        match r {
            Some(s) => path_file_stem(path@) == Some(s@),
            None => path_file_stem(path@) is None,
        },
{
    std::path::Path::new(path).file_stem().map(|s| s.to_string_lossy().into_owned())
}

/// The extensions whose files are compiled to `.js`, besides `.js` itself.
pub open spec fn source_extensions() -> Seq<Seq<char>> {
    seq!["ts"@, "tsx"@, "jsx"@, "mjs"@, "mts"@]
}

/// The paths a `.js` file's source could have: beside it, with the same stem and one of the
/// source extensions.  None when the path has no parent or no file name.
pub open spec fn sibling_paths(path: Seq<char>) -> Seq<Seq<char>> {
    match (crate::paths::path_parent(path), path_file_stem(path)) {
        (Some(parent), Some(stem)) => source_extensions().map_values(
            |e: Seq<char>| crate::paths::path_join(parent, stem + seq!['.'] + e),
        ),
        _ => Seq::empty(),
    }
}

/// The paths whose existence makes the `.js` file `path` an output rather than a source
/// (see [`sibling_paths`]).
pub fn transpiled_sibling_candidates(path: &str) -> (r: Vec<String>)
    ensures
        crate::classmap::strings_view(r@) == sibling_paths(path@),
{
    let mut r: Vec<String> = Vec::new();
    let parent = crate::paths::parent_of(path);
    let stem = file_stem_of(path);
    match (parent, stem) {
        (Some(parent), Some(stem)) => {
            let exts = vec![to_owned_string("ts"), to_owned_string("tsx"), to_owned_string("jsx"), to_owned_string("mjs"), to_owned_string("mts")];
            let ghost ev = crate::classmap::strings_view(exts@);
            assert(ev =~= source_extensions());
            let mut k: usize = 0;
            while k < exts.len()
                invariant
                    k <= exts@.len(),
                    ev == crate::classmap::strings_view(exts@),
                    ev == source_extensions(),
                    crate::paths::path_parent(path@) == Some(parent@),
                    path_file_stem(path@) == Some(stem@),
                    crate::classmap::strings_view(r@) == sibling_paths(path@).take(k as int),
                decreases exts@.len() - k,
            {
                let mut name = to_owned_string(stem.as_str());
                name.push('.');
                name.push_str(exts[k].as_str());
                let ghost old_r = r@;
                r.push(crate::paths::join_path(parent.as_str(), name.as_str()));
                proof {
                    assert(name@ =~= stem@ + seq!['.'] + ev[k as int]);
                    assert(crate::classmap::strings_view(r@) =~= crate::classmap::strings_view(old_r).push(
                        crate::paths::path_join(parent@, name@),
                    ));
                    assert(crate::classmap::strings_view(r@) =~= sibling_paths(path@).take(k + 1));
                }
                k += 1;
            }
            assert(sibling_paths(path@).take(k as int) =~= sibling_paths(path@));
        },
        _ => {
            assert(crate::classmap::strings_view(r@) =~= sibling_paths(path@));
        },
    }
    r
}

/// The output path of a source: its relative path under `output_dir`, with `.js` for a
/// script and `.css` for an SCSS stylesheet.
pub open spec fn output_path_of(output_dir: Seq<char>, rel_path: Seq<char>, kind: SourceKind) -> Seq<char> {
    if kind.spec_is_js_like() {
        crate::paths::path_join(output_dir, crate::paths::path_with_extension(rel_path, "js"@))
    } else if kind is Scss {
        crate::paths::path_join(output_dir, crate::paths::path_with_extension(rel_path, "css"@))
    } else {
        crate::paths::path_join(output_dir, rel_path)
    }
}

/// Where the output of a source with relative path `rel_path` and kind `kind` is written.
pub fn output_path(output_dir: &str, rel_path: &str, kind: SourceKind) -> (r: String)
    ensures
        r@ == output_path_of(output_dir@, rel_path@, kind),
{
    if kind.is_js_like() {
        proof {
            crate::paths::lemma_plain_extensions();
        }
        let rel = crate::paths::set_path_extension(rel_path, "js");
        crate::paths::join_path(output_dir, rel.as_str())
    } else if kind == SourceKind::Scss {
        proof {
            crate::paths::lemma_plain_extensions();
        }
        let rel = crate::paths::set_path_extension(rel_path, "css");
        crate::paths::join_path(output_dir, rel.as_str())
    } else {
        crate::paths::join_path(output_dir, rel_path)
    }
}

/// The file a module's build time is recorded in.
pub fn timestamp_path(output_dir: &str) -> (r: String)
    ensures
        r@ == crate::paths::path_join(output_dir@, "timestamp"@),
{
    crate::paths::join_path(output_dir, "timestamp")
}

/// The timestamp file of the dependency `dep` of the module in `source_dir`: the module
/// directories are siblings, so it is `<parent of source_dir>/<dep>/timestamp`.  `None` when
/// `source_dir` has no parent.
pub fn dependency_timestamp_path(source_dir: &str, dep: &str) -> (r: Option<String>)
    ensures
        match crate::paths::path_parent(source_dir@) {
            Some(p) => r matches Some(s) && s@ == crate::paths::path_join(crate::paths::path_join(p, dep@), "timestamp"@),
            None => r is None,
        },
{
    match crate::paths::parent_of(source_dir) {
        Some(parent) => {
            let dir = crate::paths::join_path(parent.as_str(), dep);
            Some(crate::paths::join_path(dir.as_str(), "timestamp"))
        },
        None => None,
    }
}

/// The number `str::parse::<u128>` reads from `t`: an optional `+` and a non-empty run of
/// ASCII digits whose value fits in 128 bits.
pub open spec fn u128_text_value(t: Seq<char>) -> Option<nat> {
    let d = if t.len() > 0 && t[0] == '+' {
        t.skip(1)
    } else {
        t
    };
    if is_digits(d) && digits_value(d) <= u128::MAX {
        Some(digits_value(d))
    } else {
        None
    }
}

/// Reads a timestamp file's contents: the number it holds, surrounding whitespace ignored.
#[verifier::loop_isolation(false)]
pub fn parse_timestamp(contents: &str) -> (r: Option<u128>)
    ensures
        match u128_text_value(crate::text::trim(contents@)) {
            Some(v) => r == Some(v as u128),
            None => r is None,
        },
{
    let v = str_chars(contents);
    let (start, end) = crate::text::trim_bounds(v.as_slice());
    let ghost t = v@.subrange(start as int, end as int);
    let mut i = start;
    if i < end && v[i] == '+' {
        i += 1;
    }
    let ghost d = v@.subrange(i as int, end as int);
    proof {
        if t.len() > 0 && t[0] == '+' {
            assert(t.skip(1) =~= d);
        } else {
            assert(t =~= d);
        }
    }
    if i == end {
        return None;
    }
    let mut value: u128 = 0;
    let mut k = i;
    while k < end
        invariant
            i <= k <= end <= v@.len(),
            d == v@.subrange(i as int, end as int),
            forall|m: int| 0 <= m < k - i ==> '0' <= #[trigger] d[m] <= '9',
            value == digits_value(d.take(k - i)),
        decreases end - k,
    {
        let c = v[k];
        if c < '0' || c > '9' {
            assert(d[k - i] == c);
            return None;
        }
        let digit = (c as u32 - '0' as u32) as u128;
        assert(d.take(k - i + 1).drop_last() =~= d.take(k - i));
        assert(d.take(k - i + 1).last() == c);
        match value.checked_mul(10) {
            Some(t10) => match t10.checked_add(digit) {
                Some(nv) => {
                    value = nv;
                },
                None => {
                    proof {
                        if is_digits(d) {
                            crate::classmap::lemma_digits_value_grows(d, k - i + 1);
                        }
                    }
                    return None;
                },
            },
            None => {
                proof {
                    if is_digits(d) {
                        crate::classmap::lemma_digits_value_grows(d, k - i + 1);
                    }
                }
                return None;
            },
        }
        k += 1;
    }
    assert(d.take(k - i) =~= d);
    Some(value)
}

/// Every script source, whatever its extension (`.js`, `.ts`, `.tsx`, `.jsx`, `.mjs`,
/// `.mts`), is written as JavaScript: its relative path with the extension `js`, under the
/// output directory.  An SCSS source is written with the extension `css`, and any other
/// source keeps its relative path.
pub proof fn law_scripts_are_written_as_js(output_dir: Seq<char>, rel_path: Seq<char>, kind: SourceKind)
    ensures
        (kind == SourceKind::Js || kind == SourceKind::Ts || kind == SourceKind::Tsx || kind == SourceKind::Jsx
            || kind == SourceKind::Mjs || kind == SourceKind::Mts) ==> output_path_of(output_dir, rel_path, kind)
            == crate::paths::path_join(output_dir, crate::paths::path_with_extension(rel_path, "js"@)),
        kind == SourceKind::Scss ==> output_path_of(output_dir, rel_path, kind) == crate::paths::path_join(
            output_dir,
            crate::paths::path_with_extension(rel_path, "css"@),
        ),
        (kind == SourceKind::Css || kind == SourceKind::Other) ==> output_path_of(output_dir, rel_path, kind)
            == crate::paths::path_join(output_dir, rel_path),
{
}

} // verus!
