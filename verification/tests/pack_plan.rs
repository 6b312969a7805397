//! Path translation and pack-plan construction.

use littlefs2_pack::config::DirectoryConfig;
use littlefs2_pack::pack::{pack_directory, to_lfs_path, PackError, PackPlan, WalkEntry};

#[test]
fn lfs_path_strips_root() {
    let result = to_lfs_path("./website/css/style.css", "./website").unwrap();
    assert_eq!(result, "/css/style.css");
}

#[test]
fn lfs_path_file_at_root() {
    let result = to_lfs_path("/tmp/site/index.html", "/tmp/site").unwrap();
    assert_eq!(result, "/index.html");
}

#[test]
fn lfs_path_deeply_nested() {
    let result = to_lfs_path("site/a/b/c/d.txt", "site").unwrap();
    assert_eq!(result, "/a/b/c/d.txt");
}

#[test]
fn lfs_path_wrong_root_fails() {
    let err = to_lfs_path("/tmp/site/index.html", "/tmp/other").unwrap_err();
    assert!(matches!(err, PackError::InvalidPath(_)));
}

fn entry(path: &str, is_dir: bool, data: &[u8]) -> WalkEntry {
    WalkEntry { path: path.to_string(), is_dir, data: data.to_vec() }
}

fn dir_config(
    depth: i32,
    ignore_hidden: bool,
    glob_ignores: &[&str],
    glob_includes: &[&str],
) -> DirectoryConfig {
    DirectoryConfig::new(
        ".".to_string(),
        depth,
        ignore_hidden,
        false,
        false,
        glob_ignores.iter().map(|s| s.to_string()).collect(),
        glob_includes.iter().map(|s| s.to_string()).collect(),
    )
}

/// The known test tree, as an unrestricted traversal rooted at `root`:
///
///   root/
///     index.html        "<html>hello</html>"
///     .hidden           "secret"
///     css/
///       style.css       "body {}"
///     js/
///       app.js          "console.log('hi')"
///     build/
///       output.bin      "binary data"
fn full_tree() -> Vec<WalkEntry> {
    vec![
        entry("root/index.html", false, b"<html>hello</html>"),
        entry("root/.hidden", false, b"secret"),
        entry("root/css", true, b""),
        entry("root/css/style.css", false, b"body {}"),
        entry("root/js", true, b""),
        entry("root/js/app.js", false, b"console.log('hi')"),
        entry("root/build", true, b""),
        entry("root/build/output.bin", false, b"binary data"),
    ]
}

/// The same tree as a hidden-filtering primary traversal yields it.
fn visible_tree() -> Vec<WalkEntry> {
    full_tree().into_iter().filter(|e| !e.path.contains("/.")).collect()
}

fn plan_dirs(plan: &PackPlan) -> Vec<&str> {
    plan.dirs.iter().map(|d| d.as_str()).collect()
}

fn plan_file_paths(plan: &PackPlan) -> Vec<&str> {
    plan.files.iter().map(|f| f.path.as_str()).collect()
}

fn plan_file<'a>(plan: &'a PackPlan, path: &str) -> Option<&'a [u8]> {
    plan.files.iter().find(|f| f.path == path).map(|f| f.data.as_slice())
}

#[test]
fn pack_creates_correct_structure() {
    let config = dir_config(-1, true, &[], &[]);
    let plan = pack_directory(&config, "root", &visible_tree(), &vec![]).unwrap();

    assert!(plan_file_paths(&plan).contains(&"/index.html"));
    assert!(plan_file_paths(&plan).contains(&"/css/style.css"));
    assert!(plan_file_paths(&plan).contains(&"/js/app.js"));

    assert_eq!(plan_file(&plan, "/index.html").unwrap(), b"<html>hello</html>");
    assert_eq!(plan_file(&plan, "/css/style.css").unwrap(), b"body {}");
}

#[test]
fn pack_respects_hidden_ignore() {
    let config = dir_config(-1, true, &[], &[]);
    let plan = pack_directory(&config, "root", &visible_tree(), &vec![]).unwrap();
    assert!(!plan_file_paths(&plan).contains(&"/.hidden"));
    assert!(plan_file_paths(&plan).contains(&"/index.html"));
}

#[test]
fn pack_includes_hidden_when_configured() {
    // With hidden filtering off, the primary traversal yields the whole tree.
    let config = dir_config(-1, false, &[], &[]);
    let plan = pack_directory(&config, "root", &full_tree(), &vec![]).unwrap();
    assert!(plan_file_paths(&plan).contains(&"/.hidden"));
}

#[test]
fn pack_with_glob_ignores() {
    let config = dir_config(-1, true, &["build"], &[]);
    let plan = pack_directory(&config, "root", &visible_tree(), &vec![]).unwrap();
    assert!(!plan_dirs(&plan).contains(&"/build"));
    assert!(!plan_file_paths(&plan).contains(&"/build/output.bin"));
    assert!(plan_file_paths(&plan).contains(&"/index.html"));
}

#[test]
fn pack_ignores_by_extension() {
    let config = dir_config(-1, true, &["*.bin"], &[]);
    let plan = pack_directory(&config, "root", &visible_tree(), &vec![]).unwrap();
    assert!(!plan_file_paths(&plan).contains(&"/build/output.bin"));
    assert!(plan_dirs(&plan).contains(&"/build"));
    assert!(plan_file_paths(&plan).contains(&"/index.html"));
}

#[test]
fn pack_empty_directory() {
    let config = dir_config(-1, true, &[], &[]);
    let plan = pack_directory(&config, "root", &vec![], &vec![]).unwrap();
    assert!(plan.dirs.is_empty());
    assert!(plan.files.is_empty());
}

#[test]
fn pack_is_deterministic() {
    let config = dir_config(-1, true, &[], &[]);
    let forward = visible_tree();
    let mut backward = visible_tree();
    backward.reverse();

    let plan1 = pack_directory(&config, "root", &forward, &vec![]).unwrap();
    let plan2 = pack_directory(&config, "root", &backward, &vec![]).unwrap();

    assert_eq!(plan1.dirs, plan2.dirs);
    assert_eq!(plan_file_paths(&plan1), plan_file_paths(&plan2));
    for f in &plan1.files {
        assert_eq!(plan_file(&plan2, &f.path).unwrap(), f.data.as_slice());
    }
}

#[test]
fn plan_restricts_tree_to_unignored() {
    // The plan is exactly the tree minus the excluded entries, sorted.
    let config = dir_config(-1, true, &[], &[]);
    let plan = pack_directory(&config, "root", &visible_tree(), &vec![]).unwrap();

    assert_eq!(plan_dirs(&plan), vec!["/build", "/css", "/js"]);
    assert_eq!(
        plan_file_paths(&plan),
        vec!["/build/output.bin", "/css/style.css", "/index.html", "/js/app.js"]
    );
}

#[test]
fn include_pattern_switches_to_whitelist() {
    // One force-include pattern excludes even files no ignore pattern
    // targets: keep.bin stays, drop.bin and also.txt go.
    let primary = vec![
        entry("root/keep.bin", false, b"keep"),
        entry("root/drop.bin", false, b"drop"),
        entry("root/also.txt", false, b"also"),
    ];
    let config = dir_config(-1, false, &["*.bin"], &["keep.bin"]);
    let plan = pack_directory(&config, "root", &primary, &primary.clone()).unwrap();

    assert_eq!(plan_file_paths(&plan), vec!["/keep.bin"]);
    assert_eq!(plan_file(&plan, "/keep.bin").unwrap(), b"keep");
}

#[test]
fn rescued_file_brings_ancestors() {
    // The file lives under a hidden directory the primary traversal
    // pruned whole; only the rescue traversal sees it. Its ancestor chain
    // is synthesized so the file stays reachable.
    let primary = vec![entry("root/index.html", false, b"<html>hello</html>")];
    let rescue = vec![
        entry("root/index.html", false, b"<html>hello</html>"),
        entry("root/.assets", true, b""),
        entry("root/.assets/img", true, b""),
        entry("root/.assets/img/logo.png", false, b"png bytes"),
    ];
    let config = dir_config(-1, true, &[], &["logo.png"]);
    let plan = pack_directory(&config, "root", &primary, &rescue).unwrap();

    assert_eq!(plan_dirs(&plan), vec!["/.assets", "/.assets/img"]);
    assert_eq!(plan_file(&plan, "/.assets/img/logo.png").unwrap(), b"png bytes");
    // The whitelist rule drops the unmatched primary file.
    assert_eq!(plan_file_paths(&plan), vec!["/.assets/img/logo.png"]);
}

#[test]
fn rescue_not_consulted_without_includes() {
    let primary = vec![entry("root/index.html", false, b"x")];
    let rescue = vec![entry("root/.hidden", false, b"secret")];
    let config = dir_config(-1, true, &[], &[]);
    let plan = pack_directory(&config, "root", &primary, &rescue).unwrap();
    assert_eq!(plan_file_paths(&plan), vec!["/index.html"]);
}

#[test]
fn depth_limit_prunes_deep_entries() {
    let primary = vec![
        entry("root/top.txt", false, b"top"),
        entry("root/a", true, b""),
        entry("root/a/mid.txt", false, b"mid"),
        entry("root/a/b", true, b""),
        entry("root/a/b/deep.txt", false, b"deep"),
        entry("root/a/b/c", true, b""),
        entry("root/a/b/c/too_deep.txt", false, b"too deep"),
    ];
    let config = dir_config(2, true, &[], &[]);
    let plan = pack_directory(&config, "root", &primary, &vec![]).unwrap();

    assert_eq!(plan_dirs(&plan), vec!["/a", "/a/b"]);
    assert_eq!(plan_file_paths(&plan), vec!["/a/mid.txt", "/top.txt"]);
}

#[test]
fn entry_outside_root_fails() {
    let primary = vec![entry("elsewhere/file.txt", false, b"x")];
    let config = dir_config(-1, true, &[], &[]);
    let err = pack_directory(&config, "root", &primary, &vec![]).unwrap_err();
    assert!(matches!(err, PackError::InvalidPath(p) if p == "elsewhere/file.txt"));
}
