use creator::build::builder::{
    dependency_timestamp_path, handler_for, output_path, parse_timestamp, should_process, timestamp_path,
    transpiled_sibling_candidates, DriverOptions, Handler,
};
use creator::build::graph::SourceKind;
use creator::build::scratch::{scratch_dir_name_for, ScratchSession};
use creator::cli::{
    dispatch, extract_classmap_url_from_script, resolve_classmap_url, Action, Cli, Command, UrlSource, UrlSources,
};
use creator::error::Error;
use creator::metadata::{Metadata, MetadataEntries, ModuleIdentifier};
use creator::release::{
    build_failure_message, collect_manifest, full_version, sanitize_zip_name, scratch_dir_name, zip_file_name,
    ArtifactEntry,
};
use creator::scaffold::{
    build_from_cli, check_target, has_required_cli_args, is_modules_repo, module_template_files, project_template_files,
    repo_fixed_answers,
    CliNewOpts, ModuleTemplate, TemplateFile,
};
use creator::util::{duration_millis, normalize_slashes, unix_millis_now};

const URL: &str = "https://raw.githubusercontent.com/spicetify/classmaps/main/classmaps/1.2.3/classmap.json";

fn no_sources() -> UrlSources {
    UrlSources { env_url: None, scripts: vec![UrlSource::Missing, UrlSource::Missing], url_file: UrlSource::Missing }
}

#[test]
fn script_urls_are_found() {
    let script = format!("export const url = \"{URL}\";\nconst other = 'https://example.com';");
    assert_eq!(extract_classmap_url_from_script(&script), Some(URL.to_string()));
    assert_eq!(extract_classmap_url_from_script("no url here"), None);
    assert_eq!(extract_classmap_url_from_script(URL), Some(URL.to_string()));
    let not_classmaps = "https://raw.githubusercontent.com/a/b/1.0.0/classmap.json";
    assert_eq!(extract_classmap_url_from_script(not_classmaps), None);
}

#[test]
fn url_precedence() {
    assert_eq!(resolve_classmap_url(Some("cli".to_string()), no_sources()).unwrap(), "cli");
    let env = UrlSources { env_url: Some("  from-env \n".to_string()), ..no_sources() };
    assert_eq!(resolve_classmap_url(None, env).unwrap(), "from-env");
    let blank_env = UrlSources {
        env_url: Some("   ".to_string()),
        scripts: vec![UrlSource::Missing, UrlSource::Text(format!("'{URL}'"))],
        url_file: UrlSource::Missing,
    };
    assert_eq!(resolve_classmap_url(None, blank_env).unwrap(), URL);
    let file = UrlSources { url_file: UrlSource::Text(" u \n".to_string()), ..no_sources() };
    assert_eq!(resolve_classmap_url(None, file).unwrap(), "u");
}

#[test]
fn url_errors() {
    match resolve_classmap_url(None, no_sources()).unwrap_err() {
        Error::Scaffold(m) => assert_eq!(
            m,
            "No classmap URL found. Provide --classmap-url, set CREATOR_CLASSMAP_URL, or create a classmap-info script."
        ),
        other => panic!("unexpected {other:?}"),
    }
    let empty = UrlSources { url_file: UrlSource::Text("  ".to_string()), ..no_sources() };
    match resolve_classmap_url(None, empty).unwrap_err() {
        Error::Scaffold(m) => assert_eq!(m, "classmap.url is empty"),
        other => panic!("unexpected {other:?}"),
    }
    let unreadable = UrlSources {
        env_url: None,
        scripts: vec![UrlSource::Unreadable(Error::Plan("cannot read".to_string())), UrlSource::Text(URL.to_string())],
        url_file: UrlSource::Missing,
    };
    assert!(matches!(resolve_classmap_url(None, unreadable).unwrap_err(), Error::Plan(_)));
}

#[test]
fn dispatch_builds_actions() {
    let cli = Cli {
        command: Command::Release {
            inputs: vec!["m".to_string()],
            classmap_url: None,
            output_dir: "dist".to_string(),
            dev: false,
        },
    };
    let sources = UrlSources { env_url: Some("E".to_string()), ..no_sources() };
    match dispatch(cli, sources).unwrap() {
        Action::Release(o) => {
            assert_eq!(o.classmap_url, "E");
            assert_eq!(o.inputs, vec!["m".to_string()]);
            assert_eq!(o.output_dir, "dist");
        }
        _ => panic!("expected a release"),
    }
    let fetch = Cli { command: Command::ClassmapFetch { url: None, output: "c.json".to_string(), modules_dir: "modules".to_string() } };
    assert!(dispatch(fetch, no_sources()).is_err());
    let build = Cli {
        command: Command::Build {
            module: None,
            input_dir: "i".to_string(),
            output_dir: "o".to_string(),
            classmap: "classmap.json".to_string(),
            watch: false,
            debounce: 1000,
            dev: true,
            source_map: false,
        },
    };
    match dispatch(build, no_sources()).unwrap() {
        Action::Build(o) => {
            assert_eq!(o.input_dir, "i");
            assert!(o.dev);
            assert_eq!(o.debounce, 1000);
        }
        _ => panic!("expected a build"),
    }
}

fn new_opts() -> CliNewOpts {
    CliNewOpts {
        name: Some("mod".to_string()),
        author: None,
        description: None,
        template: Some(ModuleTemplate::Extension),
        biome: None,
        dir: None,
        force: false,
    }
}

#[test]
fn scaffold_options() {
    assert!(!has_required_cli_args(&new_opts()));
    let mut full = new_opts();
    full.author = Some("me".to_string());
    assert!(has_required_cli_args(&full));
    let p = build_from_cli(new_opts(), "guess".to_string()).unwrap();
    assert_eq!(p.author, "guess");
    assert_eq!(p.dir, "modules");
    assert!(p.biome);
    assert_eq!(p.description, "");
    let mut no_name = new_opts();
    no_name.name = None;
    match build_from_cli(no_name, "g".to_string()).unwrap_err() {
        Error::Scaffold(m) => assert_eq!(m, "--name is required in non-interactive mode"),
        other => panic!("unexpected {other:?}"),
    }
    let mut no_template = new_opts();
    no_template.template = None;
    match build_from_cli(no_template, "g".to_string()).unwrap_err() {
        Error::Scaffold(m) => assert_eq!(m, "--template is required in non-interactive mode"),
        other => panic!("unexpected {other:?}"),
    }
    assert_eq!(ModuleTemplate::CustomApp.label(), "custom-app    (TSX + React, .tsx)");
    assert_eq!(ModuleTemplate::all(), vec![ModuleTemplate::CustomApp, ModuleTemplate::Extension]);
    assert!(is_modules_repo(true, true, false));
    assert!(is_modules_repo(false, false, true));
    assert!(!is_modules_repo(true, false, false));
}

#[test]
fn scaffold_files() {
    let m = module_template_files(ModuleTemplate::CustomApp);
    assert_eq!(m.len(), 5);
    assert_eq!(m[0], ("metadata.json", TemplateFile::AppMetadata));
    let p = project_template_files(true);
    assert_eq!(p.last().unwrap(), &("biome.json", TemplateFile::BiomeJson));
    assert_eq!(project_template_files(false).len(), 9);
    assert!(check_target("module", "m/x", false, false).is_ok());
    assert!(check_target("module", "m/x", true, true).is_ok());
    match check_target("module", "m/x", true, false).unwrap_err() {
        Error::Scaffold(msg) => assert_eq!(msg, "module directory already exists: m/x (use --force to overwrite)"),
        other => panic!("unexpected {other:?}"),
    }
}

#[test]
fn release_names() {
    assert_eq!(sanitize_zip_name("a/b\\c d"), "a_b_c_d");
    assert_eq!(full_version("1.0.0", 1_002_003), "1.0.0+1.2.3");
    assert_eq!(zip_file_name("my mod", "1.0.0+1.2.3"), "my_mod@1.0.0+1.2.3.zip");
    assert_eq!(scratch_dir_name(42), ".scratch-42");
    assert_eq!(build_failure_message("m", "boom"), "build m: boom");
}

#[test]
fn release_manifest_keeps_input_order() {
    let art = |id: &str| ArtifactEntry { id: id.to_string(), version: "1".to_string(), zip: format!("{id}.zip") };
    let results = vec![
        ("a".to_string(), Ok(art("a"))),
        ("b".to_string(), Err("bad".to_string())),
        ("c".to_string(), Ok(art("c"))),
    ];
    let m = collect_manifest(results, "u".to_string(), "1.2.3".to_string());
    assert_eq!(m.artifacts.iter().map(|a| a.id.as_str()).collect::<Vec<_>>(), vec!["a", "c"]);
    assert_eq!(m.failed.len(), 1);
    assert_eq!(m.failed[0].dir, "b");
    assert_eq!(m.failed[0].error, "bad");
    assert_eq!(m.classmap_version, "1.2.3");
    assert_eq!(m.artifacts.len() + m.failed.len(), 3);
}

#[test]
fn builder_decisions() {
    let opts = DriverOptions { include_unknown: false };
    assert!(!should_process(SourceKind::Other, opts, false));
    assert!(should_process(SourceKind::Other, DriverOptions { include_unknown: true }, false));
    assert!(!should_process(SourceKind::Js, opts, true));
    assert!(should_process(SourceKind::Js, opts, false));
    assert!(should_process(SourceKind::Ts, opts, true));
    assert_eq!(handler_for(SourceKind::Mts), Handler::Js);
    assert_eq!(handler_for(SourceKind::Scss), Handler::Css);
    assert_eq!(handler_for(SourceKind::Other), Handler::Copy);
    assert_eq!(output_path("/out", "a/b.tsx", SourceKind::Tsx), "/out/a/b.js");
    assert_eq!(output_path("/out", "a/b.scss", SourceKind::Scss), "/out/a/b.css");
    assert_eq!(output_path("/out", "a/b.png", SourceKind::Other), "/out/a/b.png");
    assert_eq!(timestamp_path("/out"), "/out/timestamp");
    assert_eq!(dependency_timestamp_path("/mods/app", "lib"), Some("/mods/lib/timestamp".to_string()));
    assert_eq!(
        transpiled_sibling_candidates("/src/a.js"),
        vec!["/src/a.ts", "/src/a.tsx", "/src/a.jsx", "/src/a.mjs", "/src/a.mts"]
    );
}

#[test]
fn timestamps_parse() {
    assert_eq!(parse_timestamp(" 1700000000000\n"), Some(1_700_000_000_000));
    assert_eq!(parse_timestamp("+5"), Some(5));
    assert_eq!(parse_timestamp(""), None);
    assert_eq!(parse_timestamp("+"), None);
    assert_eq!(parse_timestamp("12a"), None);
    assert_eq!(parse_timestamp("-1"), None);
    assert_eq!(parse_timestamp("340282366920938463463374607431768211455"), Some(u128::MAX));
    assert_eq!(parse_timestamp("340282366920938463463374607431768211456"), None);
}

#[test]
fn scratch_paths() {
    assert_eq!(scratch_dir_name_for(12, 3), "creator-scratch-12-3");
    let mut s = ScratchSession::in_dir("/tmp/x".to_string());
    assert_eq!(s.next_path("css"), "/tmp/x/scratch-0.css");
    assert_eq!(s.next_path("css"), "/tmp/x/scratch-1.css");
    assert_eq!(s.dir(), "/tmp/x");
}

#[test]
fn utilities() {
    assert_eq!(normalize_slashes("a\\b/c"), "a/b/c");
    assert_eq!(duration_millis(2, 5_000_000), 2005);
    assert!(unix_millis_now() > 1_600_000_000_000);
}

#[test]
fn metadata_helpers() {
    assert!(ModuleIdentifier::new("ok".to_string()).is_ok());
    assert!(matches!(ModuleIdentifier::new("has space".to_string()), Err(Error::InvalidIdentifier(_))));
    assert!(matches!(ModuleIdentifier::new(String::new()), Err(Error::InvalidIdentifier(_))));
    let m = Metadata {
        name: "m".to_string(),
        tags: vec![],
        preview: None,
        version: "1.2.3-beta+7".to_string(),
        authors: vec![],
        description: String::new(),
        readme: None,
        entries: MetadataEntries { js: Some("index.js".to_string()), css: None },
        dependencies: vec![],
        has_mixins: None,
        has_vault: None,
    };
    assert!(m.has_js());
    assert!(!m.has_css());
    let v = m.parse_version().unwrap();
    assert_eq!((v.major, v.minor, v.patch), (1, 2, 3));
    assert_eq!(v.pre, "beta");
    assert_eq!(v.build, "7");
    assert_eq!(m.module_root_from("/a/b/metadata.json"), Some("/a/b".to_string()));
}

#[test]
fn wizard_answers_inside_a_modules_repo() {
    assert_eq!(repo_fixed_answers(true), Some((false, "modules".to_string())));
    assert_eq!(repo_fixed_answers(false), None);
}
