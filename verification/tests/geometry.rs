//! Geometry resolution: sizing methods, page-size fallback, accessors.

use littlefs2_pack::config::{Config, ConfigError, DirectoryConfig, ImageConfig};

fn opt_usize(t: &toml::Table, key: &str) -> Option<usize> {
    t.get(key).map(|v| v.as_integer().unwrap() as usize)
}

/// Read the `[image]` and `[directory]` sections of a TOML document into
/// the library's configuration types.
fn config_from_toml(doc: &str) -> Config {
    let table: toml::Table = doc.parse().unwrap();
    let image = table["image"].as_table().unwrap();
    let directory = table["directory"].as_table().unwrap();

    let image = ImageConfig {
        block_size: opt_usize(image, "block_size").unwrap(),
        block_count: opt_usize(image, "block_count"),
        image_size: opt_usize(image, "image_size"),
        page_size: opt_usize(image, "page_size"),
        read_size: opt_usize(image, "read_size"),
        write_size: opt_usize(image, "write_size"),
        block_cycles: opt_i32(image, "block_cycles").unwrap_or(-1),
    };
    let dir = DirectoryConfig::new(
        directory["root"].as_str().unwrap().to_string(),
        opt_i32(directory, "depth").unwrap(),
        directory["ignore_hidden"].as_bool().unwrap(),
        directory["gitignore"].as_bool().unwrap(),
        directory["repo_gitignore"].as_bool().unwrap(),
        string_list(directory, "glob_ignores"),
        string_list(directory, "glob_includes"),
    );
    Config::new(image, dir, ".".to_string())
}

fn opt_i32(t: &toml::Table, key: &str) -> Option<i32> {
    t.get(key).map(|v| v.as_integer().unwrap() as i32)
}

fn string_list(t: &toml::Table, key: &str) -> Vec<String> {
    t[key]
        .as_array()
        .unwrap()
        .iter()
        .map(|v| v.as_str().unwrap().to_string())
        .collect()
}

/// Parse a TOML string into a Config and run image validation only.
fn parse_and_validate_image(toml: &str) -> Result<Config, ConfigError> {
    let config = config_from_toml(toml);
    config.image.validate()?;
    Ok(config)
}

fn minimal_image_toml(image_section: &str) -> String {
    format!(
        r#"
[image]
block_size = 4096
{image_section}

[directory]
root = "."
depth = -1
ignore_hidden = true
gitignore = false
repo_gitignore = false
glob_ignores = []
glob_includes = []
"#
    )
}

#[test]
fn block_count_directly() {
    let toml = minimal_image_toml("block_count = 128\npage_size = 256");
    let config = parse_and_validate_image(&toml).unwrap();
    assert_eq!(config.image.block_count(), 128);
    assert_eq!(config.image.image_size(), 128 * 4096);
}

#[test]
fn image_size_calculates_block_count() {
    let toml = minimal_image_toml("image_size = 524288\npage_size = 256");
    let config = parse_and_validate_image(&toml).unwrap();
    assert_eq!(config.image.block_count(), 128);
    assert_eq!(config.image.image_size(), 524288);
}

#[test]
fn both_sizing_methods_rejected() {
    let toml = minimal_image_toml("block_count = 128\nimage_size = 524288\npage_size = 256");
    let err = parse_and_validate_image(&toml).unwrap_err();
    assert!(matches!(err, ConfigError::BothSizingMethods));
}

#[test]
fn no_sizing_method_rejected() {
    let toml = minimal_image_toml("page_size = 256");
    let err = parse_and_validate_image(&toml).unwrap_err();
    assert!(matches!(err, ConfigError::NoSizingMethod));
}

#[test]
fn image_size_not_multiple_of_block_size() {
    let toml = minimal_image_toml("image_size = 5000\npage_size = 256");
    let err = parse_and_validate_image(&toml).unwrap_err();
    assert!(matches!(err, ConfigError::ImageSizeAlignment { .. }));
}

#[test]
fn page_size_sets_both_read_and_write() {
    let toml = minimal_image_toml("block_count = 128\npage_size = 256");
    let config = parse_and_validate_image(&toml).unwrap();
    assert_eq!(config.image.read_size(), 256);
    assert_eq!(config.image.write_size(), 256);
}

#[test]
fn explicit_read_write_override_page_size() {
    let toml =
        minimal_image_toml("block_count = 128\npage_size = 256\nread_size = 16\nwrite_size = 512");
    let config = parse_and_validate_image(&toml).unwrap();
    assert_eq!(config.image.read_size(), 16);
    assert_eq!(config.image.write_size(), 512);
}

#[test]
fn partial_override_with_page_size_fallback() {
    let toml = minimal_image_toml("block_count = 128\npage_size = 256\nread_size = 16");
    let config = parse_and_validate_image(&toml).unwrap();
    assert_eq!(config.image.read_size(), 16);
    assert_eq!(config.image.write_size(), 256);
}

#[test]
fn explicit_read_write_without_page_size() {
    let toml = minimal_image_toml("block_count = 128\nread_size = 16\nwrite_size = 512");
    let config = parse_and_validate_image(&toml).unwrap();
    assert_eq!(config.image.read_size(), 16);
    assert_eq!(config.image.write_size(), 512);
}

#[test]
fn missing_read_size_without_page_size() {
    let toml = minimal_image_toml("block_count = 128\nwrite_size = 512");
    let err = parse_and_validate_image(&toml).unwrap_err();
    assert!(matches!(err, ConfigError::MissingSize(s) if s == "read_size"));
}

#[test]
fn missing_write_size_without_page_size() {
    let toml = minimal_image_toml("block_count = 128\nread_size = 16");
    let err = parse_and_validate_image(&toml).unwrap_err();
    assert!(matches!(err, ConfigError::MissingSize(s) if s == "write_size"));
}

#[test]
fn block_cycles_defaults_to_negative_one() {
    let toml = minimal_image_toml("block_count = 128\npage_size = 256");
    let config = parse_and_validate_image(&toml).unwrap();
    assert_eq!(config.image.block_cycles(), -1);
}

#[test]
fn block_cycles_explicit() {
    let toml = minimal_image_toml("block_count = 128\npage_size = 256\nblock_cycles = 500");
    let config = parse_and_validate_image(&toml).unwrap();
    assert_eq!(config.image.block_cycles(), 500);
}

#[test]
fn block_size_accessor() {
    let toml = minimal_image_toml("block_count = 128\npage_size = 256");
    let config = parse_and_validate_image(&toml).unwrap();
    assert_eq!(config.image.block_size(), 4096);
}

#[test]
fn directory_accessors() {
    let toml = minimal_image_toml("block_count = 128\npage_size = 256");
    let config = parse_and_validate_image(&toml).unwrap();
    let dir = &config.directory;

    assert_eq!(dir.root(), ".");
    assert_eq!(dir.depth(), -1);
    assert!(dir.ignore_hidden());
    assert!(!dir.gitignore());
    assert!(!dir.repo_gitignore());
    assert!(dir.glob_ignores().is_empty());
    assert!(dir.glob_includes().is_empty());
}

#[test]
fn directory_with_globs() {
    let toml = r#"
[image]
block_size = 4096
block_count = 128
page_size = 256

[directory]
root = "."
depth = 3
ignore_hidden = false
gitignore = true
repo_gitignore = true
glob_ignores = ["*.bkup", "build"]
glob_includes = ["important.txt"]
"#;
    let config = parse_and_validate_image(toml).unwrap();
    let dir = &config.directory;

    assert_eq!(dir.depth(), 3);
    assert!(!dir.ignore_hidden());
    assert!(dir.gitignore());
    assert!(dir.repo_gitignore());
    assert_eq!(dir.glob_ignores(), &["*.bkup", "build"]);
    assert_eq!(dir.glob_includes(), &["important.txt"]);
}

#[test]
fn resolve_root_existing_directory() {
    let dir_config = DirectoryConfig::new(
        ".".to_string(),
        -1,
        true,
        false,
        false,
        vec![],
        vec![],
    );
    let result = dir_config.resolve_root(".", true);
    assert!(result.is_ok());
}

#[test]
fn resolve_root_missing_directory() {
    let dir_config = DirectoryConfig::new(
        "nonexistent_dir_that_should_not_exist".to_string(),
        -1,
        true,
        false,
        false,
        vec![],
        vec![],
    );
    let err = dir_config.resolve_root(".", false).unwrap_err();
    assert!(matches!(err, ConfigError::RootNotFound(_)));
}

#[test]
fn resolved_root_joins_with_base() {
    let dir_config = DirectoryConfig::new(
        "./website".to_string(),
        -1,
        true,
        false,
        false,
        vec![],
        vec![],
    );
    assert_eq!(dir_config.resolved_root("/srv"), "/srv/./website");
    assert_eq!(dir_config.resolved_root(""), "./website");
}
