use bundler_core::fs::{FsAnswer, FsQuery};
use bundler_core::resolver::{ResolveStep, Resolver, ResolverError};

/// Answers the questions of a resolution from a list of files and a list of
/// directories; the canonical form of a path is the path without `./`.
fn answer(files: &[&str], dirs: &[&str], query: &FsQuery) -> FsAnswer {
    let plain = |p: &str| p.replace("/./", "/");
    match query {
        FsQuery::IsFile(p) => FsAnswer::Flag(files.contains(&plain(p).as_str())),
        FsQuery::Exists(p) => {
            FsAnswer::Flag(files.contains(&plain(p).as_str()) || dirs.contains(&plain(p).as_str()))
        }
        FsQuery::IsDir(p) => FsAnswer::Flag(dirs.contains(&plain(p).as_str())),
        FsQuery::Canonicalize(p) => FsAnswer::Path(plain(p)),
        FsQuery::ReadToString(p) => FsAnswer::Failed(format!("not asked for: {}", p)),
    }
}

fn resolve_in(
    resolver: &Resolver,
    files: &[&str],
    dirs: &[&str],
    request: &str,
    context: &str,
) -> (Result<String, ResolverError>, Vec<FsQuery>) {
    let mut asked = Vec::new();
    let mut resolution = resolver.resolve(request, context);
    loop {
        let query = resolution.query();
        let reply = answer(files, dirs, &query);
        asked.push(query);
        match resolution.advance(reply) {
            ResolveStep::Ask(next) => resolution = next,
            ResolveStep::Done(result) => return (result, asked),
        }
    }
}

fn paths_asked(asked: &[FsQuery]) -> Vec<String> {
    asked
        .iter()
        .map(|q| match q {
            FsQuery::IsFile(p) => format!("is_file {}", p),
            FsQuery::Exists(p) => format!("exists {}", p),
            FsQuery::IsDir(p) => format!("is_dir {}", p),
            FsQuery::Canonicalize(p) => format!("canonicalize {}", p),
            FsQuery::ReadToString(p) => format!("read {}", p),
        })
        .collect()
}

#[test]
fn test_resolve_relative() {
    let files = ["/tmp/base/main.js", "/tmp/base/helper.js"];
    let resolver = Resolver::new();
    let (result, _) = resolve_in(&resolver, &files, &["/tmp/base"], "./helper.js", "/tmp/base/main.js");
    let result = result.unwrap();
    assert!(result.ends_with("helper.js"));
}

#[test]
fn test_resolve_with_extension() {
    let files = ["/tmp/base/main.js", "/tmp/base/helper.ts"];
    let resolver = Resolver::new();
    let (result, _) = resolve_in(&resolver, &files, &["/tmp/base"], "./helper", "/tmp/base/main.js");
    let result = result.unwrap();
    assert!(result.ends_with("helper.ts"));
}

#[test]
fn only_the_ts_file_exists_so_it_wins() {
    let files = ["/p/main.js", "/p/x.ts"];
    let (result, asked) = resolve_in(&Resolver::new(), &files, &["/p"], "./x", "/p/main.js");
    assert_eq!(result.unwrap(), "/p/x.ts");
    assert_eq!(
        paths_asked(&asked),
        vec![
            "is_file /p/main.js",
            "exists /p/./x",
            "exists /p/./x.js",
            "exists /p/./x.ts",
            "canonicalize /p/./x.ts",
        ]
    );
}

#[test]
fn js_wins_over_ts_by_extension_order() {
    let files = ["/p/main.js", "/p/x.ts", "/p/x.js", "/p/x.json"];
    let (result, _) = resolve_in(&Resolver::new(), &files, &["/p"], "./x", "/p/main.js");
    assert_eq!(result.unwrap(), "/p/x.js");
}

#[test]
fn configured_extension_order_is_followed() {
    let files = ["/p/main.js", "/p/x.ts", "/p/x.js"];
    let resolver = Resolver::new().with_extensions(vec![".ts".to_string(), ".js".to_string()]);
    let (result, _) = resolve_in(&resolver, &files, &["/p"], "./x", "/p/main.js");
    assert_eq!(result.unwrap(), "/p/x.ts");
}

#[test]
fn exact_path_wins_over_extensions() {
    let files = ["/p/main.js", "/p/x", "/p/x.js"];
    let (result, asked) = resolve_in(&Resolver::new(), &files, &["/p"], "./x", "/p/main.js");
    assert_eq!(result.unwrap(), "/p/x");
    assert_eq!(
        paths_asked(&asked),
        vec!["is_file /p/main.js", "exists /p/./x", "is_dir /p/./x", "canonicalize /p/./x"]
    );
}

#[test]
fn nothing_matches_so_the_module_is_not_found() {
    let files = ["/p/main.js"];
    let (result, asked) = resolve_in(&Resolver::new(), &files, &["/p"], "./nowhere", "/p/main.js");
    match result {
        Err(ResolverError::ModuleNotFound { request, context }) => {
            assert_eq!(request, "./nowhere");
            assert_eq!(context, "/p/main.js");
        }
        other => panic!("expected not found, got {:?}", other),
    }
    assert_eq!(
        paths_asked(&asked),
        vec![
            "is_file /p/main.js",
            "exists /p/./nowhere",
            "exists /p/./nowhere.js",
            "exists /p/./nowhere.ts",
            "exists /p/./nowhere.json",
            "is_dir /p/./nowhere",
        ]
    );
}

#[test]
fn request_that_names_a_directory_resolves_to_its_index_file() {
    let files = ["/d/main.js", "/d/lib/index.ts"];
    let dirs = ["/d", "/d/lib"];
    let (result, asked) = resolve_in(&Resolver::new(), &files, &dirs, "./lib", "/d/main.js");
    assert_eq!(result.unwrap(), "/d/lib/index.ts");
    assert_eq!(
        paths_asked(&asked),
        vec![
            "is_file /d/main.js",
            "exists /d/./lib",
            "is_dir /d/./lib",
            "exists /d/./lib.js",
            "exists /d/./lib.ts",
            "exists /d/./lib.json",
            "is_dir /d/./lib",
            "exists /d/./lib/index.js",
            "exists /d/./lib/index.ts",
            "canonicalize /d/./lib/index.ts",
        ]
    );
}

#[test]
fn file_beside_a_directory_of_its_name_wins_over_the_index_file() {
    let files = ["/d/main.js", "/d/lib.ts", "/d/lib/index.js"];
    let dirs = ["/d", "/d/lib"];
    let (result, _) = resolve_in(&Resolver::new(), &files, &dirs, "./lib", "/d/main.js");
    assert_eq!(result.unwrap(), "/d/lib.ts");
}

#[test]
fn index_files_follow_the_order_of_the_extensions() {
    let files = ["/d/main.js", "/d/lib/index.json", "/d/lib/index.js"];
    let dirs = ["/d", "/d/lib"];
    let (result, _) = resolve_in(&Resolver::new(), &files, &dirs, "./lib", "/d/main.js");
    assert_eq!(result.unwrap(), "/d/lib/index.js");
}

#[test]
fn directory_without_an_index_file_is_not_found() {
    let files = ["/d/main.js", "/d/lib/index.css"];
    let dirs = ["/d", "/d/lib"];
    let (result, _) = resolve_in(&Resolver::new(), &files, &dirs, "./lib", "/d/main.js");
    assert!(matches!(result, Err(ResolverError::ModuleNotFound { .. })));
}

#[test]
fn context_that_is_a_directory_is_used_as_it_is() {
    let files = ["/p/src/a.js"];
    let (result, asked) = resolve_in(&Resolver::new(), &files, &["/p/src"], "a.js", "/p/src");
    assert_eq!(result.unwrap(), "/p/src/a.js");
    assert_eq!(paths_asked(&asked)[1], "exists /p/src/a.js");
}

#[test]
fn request_from_the_root_replaces_the_directory() {
    let files = ["/p/main.js", "/lib/a.js"];
    let (result, _) = resolve_in(&Resolver::new(), &files, &[], "/lib/a.js", "/p/main.js");
    assert_eq!(result.unwrap(), "/lib/a.js");
}

#[test]
fn failing_canonicalization_is_an_io_error() {
    let mut resolution = Resolver::new().resolve("./x", "/p/main.js");
    let mut result = None;
    while result.is_none() {
        let reply = match resolution.query() {
            FsQuery::Canonicalize(_) => FsAnswer::Failed("permission denied".to_string()),
            _ => FsAnswer::Flag(true),
        };
        match resolution.advance(reply) {
            ResolveStep::Ask(next) => resolution = next,
            ResolveStep::Done(r) => {
                result = Some(r);
                break;
            }
        }
    }
    match result.unwrap() {
        Err(ResolverError::Io(message)) => assert_eq!(message, "permission denied"),
        other => panic!("expected an io error, got {:?}", other),
    }
}

#[test]
fn answer_of_the_wrong_kind_counts_as_no() {
    let mut resolution = Resolver::new().with_extensions(Vec::new()).resolve("./x", "/p/main.js");
    let mut steps = 0;
    let result = loop {
        steps += 1;
        match resolution.advance(FsAnswer::Text("yes".to_string())) {
            ResolveStep::Ask(next) => resolution = next,
            ResolveStep::Done(r) => break r,
        }
    };
    assert_eq!(steps, 3);
    assert!(matches!(result, Err(ResolverError::ModuleNotFound { .. })));
}
