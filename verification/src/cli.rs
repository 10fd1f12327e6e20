use vstd::prelude::*;

use crate::error::Error;
use crate::scaffold::{CliNewOpts, ModuleTemplate};
use crate::text::{str_chars, to_owned_string};

verus! {

/// The command line: one subcommand.
pub struct Cli {
    pub command: Command,
}

/// The subcommands and their arguments.
pub enum Command {
    /// Scaffold a new project or module.
    New {
        name: Option<String>,
        dir: Option<String>,
        author: Option<String>,
        description: Option<String>,
        template: Option<ModuleTemplate>,
        biome: Option<bool>,
        force: bool,
    },
    /// Build one module.
    Build {
        module: Option<String>,
        input_dir: String,
        output_dir: String,
        classmap: String,
        watch: bool,
        debounce: u64,
        dev: bool,
        source_map: bool,
    },
    /// Package modules for release.
    Release { inputs: Vec<String>, classmap_url: Option<String>, output_dir: String, dev: bool },
    /// Download a classmap and write its type declarations.
    ClassmapFetch { url: Option<String>, output: String, modules_dir: String },
}

/// Options of `classmap-fetch`.
#[derive(Debug, Clone)]
pub struct FetchOpts {
    pub url: String,
    pub output: String,
    pub modules_dir: String,
}

/// Options of `release`.
#[derive(Debug, Clone)]
pub struct ReleaseOpts {
    pub inputs: Vec<String>,
    pub classmap_url: String,
    pub output_dir: String,
    pub dev: bool,
}

/// Options of a build.
#[derive(Debug, Clone)]
pub struct BuildOpts {
    pub module: Option<String>,
    pub input_dir: String,
    pub output_dir: String,
    pub classmap: String,
    pub watch: bool,
    pub debounce: u64,
    pub dev: bool,
    pub source_map: bool,
}

/// Options of watching a set of modules.
#[derive(Debug, Clone)]
pub struct WatchOpts {
    pub modules: Vec<String>,
    pub classmap: String,
    pub debounce: u64,
    pub dev: bool,
    pub source_map: bool,
}

/// What a command line asks to run, with its settled options.
pub enum Action {
    New(CliNewOpts),
    Build(BuildOpts),
    Release(ReleaseOpts),
    ClassmapFetch(FetchOpts),
}

/// A place a classmap URL may be read from, as it was found.
pub enum UrlSource {
    /// The file does not exist.
    Missing,
    /// The file exists but could not be read.
    Unreadable(Error),
    /// The file's contents.
    Text(String),
}

/// The places a classmap URL is looked for when the command line gives none: the
/// `CREATOR_CLASSMAP_URL` environment variable, the classmap-info scripts (in the order
/// `scripts/classmap-info.ts`, `scripts/classmap-info.js`, `classmap-info.ts`,
/// `classmap-info.js`), and the file `classmap.url`.
pub struct UrlSources {
    pub env_url: Option<String>,
    pub scripts: Vec<UrlSource>,
    pub url_file: UrlSource,
}

/// Whether `c` ends a token of a classmap-info script: whitespace or a quote.
pub open spec fn is_token_break(c: char) -> bool {
    crate::text::is_whitespace(c) || c == '"' || c == '\'' || c == '`'
}

/// The tokens of `s` between token breaks, as `str::split` with a character predicate
/// yields them (empty tokens included).
pub open spec fn tokens(s: Seq<char>) -> Seq<Seq<char>>
    decreases s.len(),
{
    if s.len() == 0 {
        seq![Seq::<char>::empty()]
    } else if is_token_break(s[0]) {
        seq![Seq::<char>::empty()] + tokens(s.drop_first())
    } else {
        crate::text::glue(seq![s[0]], tokens(s.drop_first()))
    }
}

/// `tokens` always yields at least one token.
proof fn lemma_tokens_nonempty(s: Seq<char>)
    ensures
        tokens(s).len() >= 1,
    decreases s.len(),
{
    if s.len() > 0 {
        lemma_tokens_nonempty(s.drop_first());
    }
}

/// Whether a token is a classmap URL: a raw GitHub address under a `classmaps` directory,
/// ending in `classmap.json`.
pub open spec fn is_classmap_url(t: Seq<char>) -> bool {
    &&& crate::text::starts_with(t, "https://raw.githubusercontent.com/"@)
    &&& crate::text::contains_seq(t, "/classmaps/"@)
    &&& crate::text::ends_with(t, "/classmap.json"@)
}

/// The first token of `ts` that is a classmap URL.
pub open spec fn first_url(ts: Seq<Seq<char>>) -> Option<Seq<char>>
    decreases ts.len(),
{
    if ts.len() == 0 {
        None
    } else if is_classmap_url(ts[0]) {
        Some(ts[0])
    } else {
        first_url(ts.drop_first())
    }
}

/// Whether a token is a classmap URL.
fn token_is_url(t: &[char]) -> (r: bool)
    ensures
        r == is_classmap_url(t@),
{
    let prefix = str_chars("https://raw.githubusercontent.com/");
    let middle = str_chars("/classmaps/");
    let suffix = str_chars("/classmap.json");
    if !crate::text::chars_start_with(t, prefix.as_slice()) {
        return false;
    }
    if !crate::text::chars_end_with(t, suffix.as_slice()) {
        return false;
    }
    let s = crate::text::string_from_chars(t);
    let m = crate::text::string_from_chars(middle.as_slice());
    crate::text::str_contains(s.as_str(), m.as_str())
}

/// The classmap URL a classmap-info script names: the first token (split at whitespace and
/// quotes) that is a classmap URL.
pub fn extract_classmap_url_from_script(script: &str) -> (r: Option<String>)
    ensures
        match first_url(tokens(script@)) {
            Some(u) => r matches Some(s) && s@ == u,
            None => r is None,
        },
{
    let v = str_chars(script);
    let mut cur: Vec<char> = Vec::new();
    let mut i: usize = 0;
    proof {
        lemma_tokens_nonempty(v@);
        assert(v@.skip(0) =~= v@);
        assert(cur@ + tokens(v@)[0] =~= tokens(v@)[0]);
        assert(crate::text::glue(cur@, tokens(v@)) =~= tokens(v@));
    }
    while i < v.len()
        invariant
            i <= v@.len(),
            v@ == script@,
            first_url(tokens(v@)) == first_url(crate::text::glue(cur@, tokens(v@.skip(i as int)))),
        decreases v@.len() - i,
    {
        let c = v[i];
        let ghost rest = v@.skip(i as int);
        assert(rest.drop_first() =~= v@.skip(i + 1));
        assert(rest[0] == c);
        proof {
            lemma_tokens_nonempty(v@.skip(i + 1));
        }
        if crate::text::char_is_whitespace(c) || c == '"' || c == '\'' || c == '`' {
            let ghost g = crate::text::glue(cur@, tokens(rest));
            assert(tokens(rest) == seq![Seq::<char>::empty()] + tokens(v@.skip(i + 1)));
            assert(g =~= seq![cur@] + tokens(v@.skip(i + 1)));
            assert(g.drop_first() =~= tokens(v@.skip(i + 1)));
            if token_is_url(cur.as_slice()) {
                return Some(crate::text::string_from_chars(cur.as_slice()));
            }
            cur = Vec::new();
            proof {
                let t = tokens(v@.skip(i + 1));
                assert(crate::text::glue(cur@, t) =~= t);
            }
        } else {
            let ghost t = tokens(v@.skip(i + 1));
            let ghost old_cur = cur@;
            cur.push(c);
            assert(tokens(rest) == crate::text::glue(seq![c], t));
            assert(old_cur + (seq![c] + t[0]) =~= cur@ + t[0]);
            assert(crate::text::glue(old_cur, crate::text::glue(seq![c], t)) =~= crate::text::glue(cur@, t));
        }
        i += 1;
    }
    proof {
        assert(v@.skip(i as int) =~= Seq::<char>::empty());
        let g = crate::text::glue(cur@, tokens(Seq::<char>::empty()));
        assert(g =~= seq![cur@]);
        assert(g.drop_first() =~= Seq::<Seq<char>>::empty());
        assert(first_url(Seq::<Seq<char>>::empty()) is None);
    }
    if token_is_url(cur.as_slice()) {
        Some(crate::text::string_from_chars(cur.as_slice()))
    } else {
        None
    }
}

/// How a search for a classmap URL ends.
pub enum UrlOutcome {
    /// This URL was found.
    Found(Seq<char>),
    /// A source that exists could not be read.
    Failed(Error),
    /// `classmap.url` exists but is blank.
    EmptyFile,
    /// No source gives a URL.
    NotFound,
}

/// The outcome of looking for a classmap URL in the scripts from `i` on: nothing found, the
/// URL of the first script that names one, or the error of an unreadable script met first.
pub open spec fn scripts_outcome(scripts: Seq<UrlSource>, i: int) -> Option<UrlOutcome>
    decreases scripts.len() - i,
{
    if i < 0 || i >= scripts.len() {
        None
    } else {
        match scripts[i] {
            UrlSource::Missing => scripts_outcome(scripts, i + 1),
            UrlSource::Unreadable(e) => Some(UrlOutcome::Failed(e)),
            UrlSource::Text(t) => match first_url(tokens(t@)) {
                Some(u) => Some(UrlOutcome::Found(u)),
                None => scripts_outcome(scripts, i + 1),
            },
        }
    }
}

/// The message when no classmap URL is found anywhere.
pub open spec fn no_url_message() -> Seq<char> {
    "No classmap URL found. Provide --classmap-url, set CREATOR_CLASSMAP_URL, or create a classmap-info script."@
}

/// Whether `e` is the error of a URL search that ended with `o`.
pub open spec fn url_error(e: Error, o: UrlOutcome) -> bool {
    match o {
        UrlOutcome::Found(_) => false,
        UrlOutcome::Failed(e2) => e == e2,
        UrlOutcome::EmptyFile => e matches Error::Scaffold(m) && m@ == "classmap.url is empty"@,
        UrlOutcome::NotFound => e matches Error::Scaffold(m) && m@ == no_url_message(),
    }
}

/// Whether `r` reports the outcome `o` of a URL search.
pub open spec fn url_reports(r: Result<String, Error>, o: UrlOutcome) -> bool {
    match o {
        UrlOutcome::Found(u) => r matches Ok(s) && s@ == u,
        _ => r matches Err(e) && url_error(e, o),
    }
}

/// The classmap URL to use: the command line's, else the environment variable's (when not
/// blank, trimmed), else the first one named by a classmap-info script, else the contents of
/// `classmap.url` (trimmed; an error when blank); an error when there is none.
pub open spec fn url_resolution(cli_value: Option<Seq<char>>, env_url: Option<Seq<char>>, scripts: Seq<UrlSource>, url_file: UrlSource) -> UrlOutcome {
    match cli_value {
        Some(u) => UrlOutcome::Found(u),
        None => if env_url is Some && crate::text::trim(env_url->0).len() > 0 {
            UrlOutcome::Found(crate::text::trim(env_url->0))
        } else {
            match scripts_outcome(scripts, 0) {
                Some(o) => o,
                None => match url_file {
                    UrlSource::Missing => UrlOutcome::NotFound,
                    UrlSource::Unreadable(e) => UrlOutcome::Failed(e),
                    UrlSource::Text(t) => if crate::text::trim(t@).len() > 0 {
                        UrlOutcome::Found(crate::text::trim(t@))
                    } else {
                        UrlOutcome::EmptyFile
                    },
                },
            }
        },
    }
}

/// `s` without leading and trailing whitespace.
pub fn trimmed(s: &str) -> (r: String)
    ensures
        r@ == crate::text::trim(s@),
{
    let v = str_chars(s);
    let (a, b) = crate::text::trim_bounds(v.as_slice());
    crate::text::string_from_chars(crate::transpile::css::slice_range(v.as_slice(), a, b).as_slice())
}

/// The view of an optional string.
pub open spec fn opt_view(o: Option<String>) -> Option<Seq<char>> {
    match o {
        Some(s) => Some(s@),
        None => None,
    }
}

/// The classmap URL to use (see [`url_resolution`]).
#[verifier::loop_isolation(false)]
pub fn resolve_classmap_url(cli_value: Option<String>, sources: UrlSources) -> (r: Result<String, Error>)
    ensures
        url_reports(r, url_resolution(opt_view(cli_value), opt_view(sources.env_url), sources.scripts@, sources.url_file)),
{
    if let Some(url) = cli_value {
        return Ok(url);
    }
    let UrlSources { env_url, scripts, url_file } = sources;
    if let Some(e) = &env_url {
        let t = trimmed(e.as_str());
        if str_chars(t.as_str()).len() > 0 {
            return Ok(t);
        }
    }
    let ghost all = scripts@;
    let mut rest = scripts;
    let ghost mut k: int = 0;
    while rest.len() > 0
        invariant
            0 <= k <= all.len(),
            rest@ == all.skip(k),
            scripts_outcome(all, 0) == scripts_outcome(all, k),
        decreases rest@.len(),
    {
        let src = rest.remove(0);
        assert(src == all[k]);
        match src {
            UrlSource::Missing => {},
            UrlSource::Unreadable(e) => {
                return Err(e);
            },
            UrlSource::Text(t) => {
                if let Some(u) = extract_classmap_url_from_script(t.as_str()) {
                    return Ok(u);
                }
            },
        }
        proof {
            assert(rest@ =~= all.skip(k + 1));
            k = k + 1;
        }
    }
    assert(k == all.len()) by {
        assert(all.skip(k).len() == 0);
    }
    match url_file {
        UrlSource::Missing => Err(Error::Scaffold(to_owned_string(
            "No classmap URL found. Provide --classmap-url, set CREATOR_CLASSMAP_URL, or create a classmap-info script.",
        ))),
        UrlSource::Unreadable(e) => Err(e),
        UrlSource::Text(t) => {
            let tt = trimmed(t.as_str());
            if str_chars(tt.as_str()).len() > 0 {
                Ok(tt)
            } else {
                Err(Error::Scaffold(to_owned_string("classmap.url is empty")))
            }
        },
    }
}

/// What `dispatch` makes of a command: the action and its options, or the error of the
/// classmap URL search.
pub open spec fn dispatch_reports(r: Result<Action, Error>, command: Command, url: UrlOutcome) -> bool {
    match command {
        Command::New { name, dir, author, description, template, biome, force } => r matches Ok(Action::New(o))
            && o.name == name && o.dir == dir && o.author == author && o.description == description
            && o.template == template && o.biome == biome && o.force == force,
        Command::Build { module, input_dir, output_dir, classmap, watch, debounce, dev, source_map } => r matches Ok(
            Action::Build(o),
        ) && o.module == module && o.input_dir == input_dir && o.output_dir == output_dir && o.classmap == classmap
            && o.watch == watch && o.debounce == debounce && o.dev == dev && o.source_map == source_map,
        Command::Release { inputs, classmap_url: _, output_dir, dev } => match url {
            UrlOutcome::Found(u) => r matches Ok(Action::Release(o)) && o.inputs == inputs && o.classmap_url@ == u
                && o.output_dir == output_dir && o.dev == dev,
            _ => r matches Err(e) && url_error(e, url),
        },
        Command::ClassmapFetch { url: _, output, modules_dir } => match url {
            UrlOutcome::Found(u) => r matches Ok(Action::ClassmapFetch(o)) && o.url@ == u && o.output == output
                && o.modules_dir == modules_dir,
            _ => r matches Err(e) && url_error(e, url),
        },
    }
}

/// The URL a command gives on its command line, if any.
pub open spec fn command_url(c: Command) -> Option<Seq<char>> {
    match c {
        Command::Release { classmap_url, .. } => opt_view(classmap_url),
        Command::ClassmapFetch { url, .. } => opt_view(url),
        _ => None,
    }
}

/// Turns a command line into the action to run.  `release` and `classmap-fetch` need a
/// classmap URL: the command line's, or one found in `sources` (see [`url_resolution`]).
pub fn dispatch(cli: Cli, sources: UrlSources) -> (r: Result<Action, Error>)
    ensures
        dispatch_reports(r, cli.command, url_resolution(command_url(cli.command), opt_view(sources.env_url),
            sources.scripts@, sources.url_file)),
{
    match cli.command {
        Command::New { name, dir, author, description, template, biome, force } => Ok(Action::New(
            CliNewOpts { name, author, description, template, biome, dir, force },
        )),
        Command::Build { module, input_dir, output_dir, classmap, watch, debounce, dev, source_map } => Ok(
            Action::Build(BuildOpts { module, input_dir, output_dir, classmap, watch, debounce, dev, source_map }),
        ),
        Command::Release { inputs, classmap_url, output_dir, dev } => {
            let url = resolve_classmap_url(classmap_url, sources)?;
            Ok(Action::Release(ReleaseOpts { inputs, classmap_url: url, output_dir, dev }))
        },
        Command::ClassmapFetch { url, output, modules_dir } => {
            let cm_url = resolve_classmap_url(url, sources)?;
            Ok(Action::ClassmapFetch(FetchOpts { url: cm_url, output, modules_dir }))
        },
    }
}

} // verus!
