//! Command-line parameter layering: standalone, overriding, and reading.

use littlefs2_pack::config::ImageConfig;
use littlefs2_pack::params::{
    apply_cli_overrides, image_config_for_reading, image_config_from_cli, ImageConfigParams,
};

/// Create an ImageConfigParams with all fields None.
fn empty_cli() -> ImageConfigParams {
    ImageConfigParams {
        block_size: None,
        block_count: None,
        image_size: None,
        page_size: None,
        read_size: None,
        write_size: None,
        block_cycles: None,
    }
}

#[test]
fn cli_with_block_count_and_page_size() {
    let cli = ImageConfigParams {
        block_size: Some(4096),
        block_count: Some(64),
        page_size: Some(256),
        ..empty_cli()
    };
    let config = image_config_from_cli(&cli).unwrap();
    assert_eq!(config.block_size(), 4096);
    assert_eq!(config.block_count(), 64);
    assert_eq!(config.read_size(), 256);
    assert_eq!(config.write_size(), 256);
    assert_eq!(config.block_cycles(), -1);
}

#[test]
fn cli_with_image_size() {
    let cli = ImageConfigParams {
        block_size: Some(4096),
        image_size: Some(4096 * 64),
        page_size: Some(256),
        ..empty_cli()
    };
    let config = image_config_from_cli(&cli).unwrap();
    assert_eq!(config.block_count(), 64);
    assert_eq!(config.image_size(), 4096 * 64);
}

#[test]
fn cli_with_explicit_read_write_sizes() {
    let cli = ImageConfigParams {
        block_size: Some(4096),
        block_count: Some(64),
        read_size: Some(16),
        write_size: Some(512),
        ..empty_cli()
    };
    let config = image_config_from_cli(&cli).unwrap();
    assert_eq!(config.read_size(), 16);
    assert_eq!(config.write_size(), 512);
}

#[test]
fn cli_read_write_override_page_size() {
    let cli = ImageConfigParams {
        block_size: Some(4096),
        block_count: Some(64),
        page_size: Some(256),
        read_size: Some(16),
        write_size: Some(512),
        ..empty_cli()
    };
    let config = image_config_from_cli(&cli).unwrap();
    assert_eq!(config.read_size(), 16);
    assert_eq!(config.write_size(), 512);
}

#[test]
fn cli_explicit_block_cycles() {
    let cli = ImageConfigParams {
        block_size: Some(4096),
        block_count: Some(64),
        page_size: Some(256),
        block_cycles: Some(500),
        ..empty_cli()
    };
    let config = image_config_from_cli(&cli).unwrap();
    assert_eq!(config.block_cycles(), 500);
}

#[test]
fn cli_block_cycles_defaults_to_negative_one() {
    let cli = ImageConfigParams {
        block_size: Some(4096),
        block_count: Some(64),
        page_size: Some(256),
        ..empty_cli()
    };
    let config = image_config_from_cli(&cli).unwrap();
    assert_eq!(config.block_cycles(), -1);
}

#[test]
fn cli_missing_block_size_fails() {
    let cli = ImageConfigParams {
        block_count: Some(64),
        page_size: Some(256),
        ..empty_cli()
    };
    assert!(image_config_from_cli(&cli).is_err());
}

#[test]
fn cli_missing_page_and_read_write_fails() {
    let cli = ImageConfigParams {
        block_size: Some(4096),
        block_count: Some(64),
        ..empty_cli()
    };
    assert!(image_config_from_cli(&cli).is_err());
}

#[test]
fn cli_missing_block_count_and_image_size_fails() {
    let cli = ImageConfigParams {
        block_size: Some(4096),
        page_size: Some(256),
        ..empty_cli()
    };
    assert!(image_config_from_cli(&cli).is_err());
}

#[test]
fn overrides_no_cli_args_preserves_toml() {
    let base = ImageConfig::from(4096, 128, 16, 512);
    let cli = empty_cli();

    let config = apply_cli_overrides(&base, &cli);
    assert_eq!(config.block_size(), 4096);
    assert_eq!(config.block_count(), 128);
    assert_eq!(config.read_size(), 16);
    assert_eq!(config.write_size(), 512);
}

#[test]
fn overrides_block_size() {
    let base = ImageConfig::from(4096, 128, 256, 256);
    let cli = ImageConfigParams { block_size: Some(512), ..empty_cli() };

    let config = apply_cli_overrides(&base, &cli);
    assert_eq!(config.block_size(), 512);
    assert_eq!(config.block_count(), 128);
}

#[test]
fn overrides_block_count() {
    let base = ImageConfig::from(4096, 128, 256, 256);
    let cli = ImageConfigParams { block_count: Some(64), ..empty_cli() };

    let config = apply_cli_overrides(&base, &cli);
    assert_eq!(config.block_count(), 64);
}

#[test]
fn overrides_image_size_replaces_block_count() {
    let base = ImageConfig::from(4096, 128, 256, 256);
    let cli = ImageConfigParams { image_size: Some(4096 * 32), ..empty_cli() };

    let config = apply_cli_overrides(&base, &cli);
    assert_eq!(config.block_count(), 32);
    assert_eq!(config.image_size(), 4096 * 32);
}

#[test]
fn overrides_read_write_sizes() {
    let base = ImageConfig::from(4096, 128, 256, 256);
    let cli = ImageConfigParams { read_size: Some(16), write_size: Some(512), ..empty_cli() };

    let config = apply_cli_overrides(&base, &cli);
    assert_eq!(config.read_size(), 16);
    assert_eq!(config.write_size(), 512);
}

#[test]
fn overrides_block_cycles() {
    let base = ImageConfig::from(4096, 128, 256, 256);
    let cli = ImageConfigParams { block_cycles: Some(100), ..empty_cli() };

    let config = apply_cli_overrides(&base, &cli);
    assert_eq!(config.block_cycles(), 100);
}

/// The geometry the configuration file of the reading tests describes.
fn toml_image() -> ImageConfig {
    ImageConfig {
        block_size: 4096,
        block_count: Some(128),
        image_size: None,
        page_size: Some(256),
        read_size: Some(16),
        write_size: Some(512),
        block_cycles: -1,
    }
}

#[test]
fn reading_config_from_toml_and_file() {
    let config_image = Some(toml_image());

    let data = vec![0xFF; 4096 * 64];
    let config = image_config_for_reading(&config_image, &empty_cli(), &data).unwrap();

    assert_eq!(config.block_count(), 64);
    assert_eq!(config.block_size(), 4096);
    assert_eq!(config.read_size(), 16);
    assert_eq!(config.write_size(), 512);
}

#[test]
fn reading_config_cli_overrides_toml() {
    let config_image = Some(toml_image());

    let cli = ImageConfigParams { read_size: Some(32), ..empty_cli() };

    let data = vec![0xFF; 4096 * 64];
    let config = image_config_for_reading(&config_image, &cli, &data).unwrap();

    assert_eq!(config.read_size(), 32);
    assert_eq!(config.write_size(), 512);
}

#[test]
fn reading_config_cli_only() {
    let cli = ImageConfigParams {
        block_size: Some(4096),
        page_size: Some(256),
        ..empty_cli()
    };

    let data = vec![0xFF; 4096 * 32];
    let config = image_config_for_reading(&None, &cli, &data).unwrap();

    assert_eq!(config.block_size(), 4096);
    assert_eq!(config.block_count(), 32);
    assert_eq!(config.read_size(), 256);
    assert_eq!(config.write_size(), 256);
}

#[test]
fn reading_config_misaligned_file_fails() {
    let cli = ImageConfigParams {
        block_size: Some(4096),
        page_size: Some(256),
        ..empty_cli()
    };

    let data = vec![0xFF; 5000];
    assert!(image_config_for_reading(&None, &cli, &data).is_err());
}

#[test]
fn reading_config_empty_file_fails() {
    let cli = ImageConfigParams {
        block_size: Some(4096),
        page_size: Some(256),
        ..empty_cli()
    };

    let data = vec![];
    assert!(image_config_for_reading(&None, &cli, &data).is_err());
}

#[test]
fn reading_config_cli_missing_block_size_fails() {
    let cli = ImageConfigParams { page_size: Some(256), ..empty_cli() };

    let data = vec![0xFF; 4096 * 32];
    assert!(image_config_for_reading(&None, &cli, &data).is_err());
}

#[test]
fn reading_config_cli_missing_sizes_fails() {
    let cli = ImageConfigParams { block_size: Some(4096), ..empty_cli() };

    let data = vec![0xFF; 4096 * 32];
    assert!(image_config_for_reading(&None, &cli, &data).is_err());
}
