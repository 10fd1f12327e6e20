use vstd::prelude::*;

use crate::error::Error;
use crate::text::to_owned_string;

verus! {

/// The kinds of module a new project can start from.
#[derive(Clone, Copy, Debug, PartialEq, Eq, Structural)]
pub enum ModuleTemplate {
    CustomApp,
    Extension,
}

/// The label of a template in the interactive chooser.
pub open spec fn template_label(t: ModuleTemplate) -> Seq<char> {
    match t {
        ModuleTemplate::CustomApp => "custom-app    (TSX + React, .tsx)"@,
        ModuleTemplate::Extension => "extension     (plain TypeScript, .ts)"@,
    }
}

impl ModuleTemplate {
    /// Every template, in the order the chooser lists them.
    pub fn all() -> (r: Vec<ModuleTemplate>)
        ensures
            r@ == seq![ModuleTemplate::CustomApp, ModuleTemplate::Extension],
    {
        vec![ModuleTemplate::CustomApp, ModuleTemplate::Extension]
    }

    /// The label of this template in the chooser.
    pub fn label(self) -> (r: &'static str)
        ensures
            r@ == template_label(self),
    {
        match self {
            ModuleTemplate::CustomApp => "custom-app    (TSX + React, .tsx)",
            ModuleTemplate::Extension => "extension     (plain TypeScript, .ts)",
        }
    }
}

/// The options of `creator new` as given on the command line.
#[derive(Debug, Clone)]
pub struct CliNewOpts {
    pub name: Option<String>,
    pub author: Option<String>,
    pub description: Option<String>,
    pub template: Option<ModuleTemplate>,
    pub biome: Option<bool>,
    pub dir: Option<String>,
    pub force: bool,
}

/// The settled options of a new project or module.
#[derive(Debug, Clone)]
pub struct ProjectOpts {
    pub name: String,
    pub author: String,
    pub description: String,
    pub template: ModuleTemplate,
    pub biome: bool,
    pub dir: String,
    pub force: bool,
}

/// Whether the command line gives enough to skip the interactive wizard: a name, an author
/// and a template.
pub fn has_required_cli_args(opts: &CliNewOpts) -> (r: bool)
    ensures
        r == (opts.name is Some && opts.author is Some && opts.template is Some),
{
    opts.name.is_some() && opts.author.is_some() && opts.template.is_some()
}

/// Settles the options given on the command line: the name and the template are required,
/// the author defaults to `guessed_author`, Biome to on, the directory to `modules` and the
/// description to empty.
pub fn build_from_cli(opts: CliNewOpts, guessed_author: String) -> (r: Result<ProjectOpts, Error>)
    ensures
        opts.name is None ==> (r matches Err(Error::Scaffold(m)) && m@ == "--name is required in non-interactive mode"@),
        opts.name is Some && opts.template is None ==> (r matches Err(Error::Scaffold(m))
            && m@ == "--template is required in non-interactive mode"@),
        opts.name is Some && opts.template is Some ==> (r matches Ok(p) && p.name == opts.name->0
            && p.author == (match opts.author { Some(a) => a, None => guessed_author })
            && p.template == opts.template->0
            && p.biome == (match opts.biome { Some(b) => b, None => true })
            && p.dir@ == (match opts.dir { Some(d) => d@, None => "modules"@ })
            && p.description@ == (match opts.description { Some(d) => d@, None => Seq::<char>::empty() })
            && p.force == opts.force),
{
    let name = match opts.name {
        Some(n) => n,
        None => return Err(Error::Scaffold(to_owned_string("--name is required in non-interactive mode"))),
    };
    let author = match opts.author {
        Some(a) => a,
        None => guessed_author,
    };
    let template = match opts.template {
        Some(t) => t,
        None => return Err(Error::Scaffold(to_owned_string("--template is required in non-interactive mode"))),
    };
    let biome = match opts.biome {
        Some(b) => b,
        None => true,
    };
    let dir = match opts.dir {
        Some(d) => d,
        None => to_owned_string("modules"),
    };
    let description = match opts.description {
        Some(d) => d,
        None => String::new(),
    };
    Ok(ProjectOpts { name, author, description, template, biome, dir, force: opts.force })
}

/// Whether the working directory is a modules repository: it has a `deno.json` and a
/// `modules` directory, or `modules/deno.json` exists.
pub fn is_modules_repo(has_deno_json: bool, has_modules_dir: bool, modules_has_deno_json: bool) -> (r: bool)
    ensures
        r == ((has_deno_json && has_modules_dir) || modules_has_deno_json),
{
    has_deno_json && has_modules_dir || modules_has_deno_json
}

/// The answers the wizard does not ask for inside a modules repository: there a new module
/// gets no Biome config and goes into `modules`.  Elsewhere both are asked, so `None`.
pub fn repo_fixed_answers(in_modules_repo: bool) -> (r: Option<(bool, String)>)
    ensures
        in_modules_repo ==> (r matches Some((biome, dir)) && !biome && dir@ == "modules"@),
        !in_modules_repo ==> r is None,
{
    if in_modules_repo {
        Some((false, to_owned_string("modules")))
    } else {
        None
    }
}

/// The template files a scaffold writes.
#[derive(Clone, Copy, Debug, PartialEq, Eq, Structural)]
pub enum TemplateFile {
    AppMetadata,
    AppIndexTs,
    AppLoadTs,
    AppMixinTs,
    AppCss,
    ExtensionMetadata,
    ExtensionIndexTs,
    ExtensionLoadTs,
    ExtensionMixinTs,
    ExtensionCss,
    DenoJson,
    ClassmapJson,
    VaultJson,
    Gitignore,
    Editorconfig,
    BiomeJson,
    BuildTs,
    WatchTs,
    EnableTs,
    ReleaseTs,
}

/// The files of a new module of the given template: where each goes in the module
/// directory, and which template renders it.
pub open spec fn module_files(template: ModuleTemplate) -> Seq<(Seq<char>, TemplateFile)> {
    match template {
        ModuleTemplate::CustomApp => seq![
            ("metadata.json"@, TemplateFile::AppMetadata),
            ("index.ts"@, TemplateFile::AppIndexTs),
            ("load.ts"@, TemplateFile::AppLoadTs),
            ("mixin.ts"@, TemplateFile::AppMixinTs),
            ("index.css"@, TemplateFile::AppCss),
        ],
        ModuleTemplate::Extension => seq![
            ("metadata.json"@, TemplateFile::ExtensionMetadata),
            ("index.ts"@, TemplateFile::ExtensionIndexTs),
            ("load.ts"@, TemplateFile::ExtensionLoadTs),
            ("mixin.ts"@, TemplateFile::ExtensionMixinTs),
            ("index.css"@, TemplateFile::ExtensionCss),
        ],
    }
}

/// The files of a new project besides its first module (`biome.json` is added when Biome
/// is on).
pub open spec fn project_files() -> Seq<(Seq<char>, TemplateFile)> {
    seq![
        ("deno.json"@, TemplateFile::DenoJson),
        ("classmap.json"@, TemplateFile::ClassmapJson),
        ("vault.json"@, TemplateFile::VaultJson),
        (".gitignore"@, TemplateFile::Gitignore),
        (".editorconfig"@, TemplateFile::Editorconfig),
        ("scripts/build.ts"@, TemplateFile::BuildTs),
        ("scripts/watch.ts"@, TemplateFile::WatchTs),
        ("scripts/enable.ts"@, TemplateFile::EnableTs),
        ("scripts/release.ts"@, TemplateFile::ReleaseTs),
    ]
}

/// The (path, template) pairs as character sequences.
pub open spec fn file_list_view(v: Seq<(&'static str, TemplateFile)>) -> Seq<(Seq<char>, TemplateFile)> {
    v.map_values(|e: (&'static str, TemplateFile)| (e.0@, e.1))
}

/// The files of a new module of the given template.
pub fn module_template_files(template: ModuleTemplate) -> (r: Vec<(&'static str, TemplateFile)>)
    ensures
        file_list_view(r@) == module_files(template),
{
    let r = match template {
        ModuleTemplate::CustomApp => vec![
            ("metadata.json", TemplateFile::AppMetadata),
            ("index.ts", TemplateFile::AppIndexTs),
            ("load.ts", TemplateFile::AppLoadTs),
            ("mixin.ts", TemplateFile::AppMixinTs),
            ("index.css", TemplateFile::AppCss),
        ],
        ModuleTemplate::Extension => vec![
            ("metadata.json", TemplateFile::ExtensionMetadata),
            ("index.ts", TemplateFile::ExtensionIndexTs),
            ("load.ts", TemplateFile::ExtensionLoadTs),
            ("mixin.ts", TemplateFile::ExtensionMixinTs),
            ("index.css", TemplateFile::ExtensionCss),
        ],
    };
    assert(file_list_view(r@) =~= module_files(template));
    r
}

/// The files of a new project besides its first module, with `biome.json` last when
/// `biome` is set.
pub fn project_template_files(biome: bool) -> (r: Vec<(&'static str, TemplateFile)>)
    ensures
        file_list_view(r@) == if biome {
            project_files().push(("biome.json"@, TemplateFile::BiomeJson))
        } else {
            project_files()
        },
{
    let mut r = vec![
        ("deno.json", TemplateFile::DenoJson),
        ("classmap.json", TemplateFile::ClassmapJson),
        ("vault.json", TemplateFile::VaultJson),
        (".gitignore", TemplateFile::Gitignore),
        (".editorconfig", TemplateFile::Editorconfig),
        ("scripts/build.ts", TemplateFile::BuildTs),
        ("scripts/watch.ts", TemplateFile::WatchTs),
        ("scripts/enable.ts", TemplateFile::EnableTs),
        ("scripts/release.ts", TemplateFile::ReleaseTs),
    ];
    assert(file_list_view(r@) =~= project_files());
    if biome {
        let ghost before = r@;
        r.push(("biome.json", TemplateFile::BiomeJson));
        assert(file_list_view(r@) =~= file_list_view(before).push(("biome.json"@, TemplateFile::BiomeJson)));
    }
    r
}

/// The refusal to scaffold into an existing directory without `--force`; `kind` is
/// `module` or `project`.
pub open spec fn exists_message(kind: Seq<char>, dir: Seq<char>) -> Seq<char> {
    kind + " directory already exists: "@ + dir + " (use --force to overwrite)"@
}

/// Whether a scaffold may write into `dir`: it must not exist yet, unless `force` is set.
pub fn check_target(kind: &str, dir: &str, dir_exists: bool, force: bool) -> (r: Result<(), Error>)
    ensures
        (dir_exists && !force) ==> (r matches Err(Error::Scaffold(m)) && m@ == exists_message(kind@, dir@)),
        !(dir_exists && !force) ==> r is Ok,
{
    if dir_exists && !force {
        let mut m = to_owned_string(kind);
        m.push_str(" directory already exists: ");
        m.push_str(dir);
        m.push_str(" (use --force to overwrite)");
        return Err(Error::Scaffold(m));
    }
    Ok(())
}

} // verus!
