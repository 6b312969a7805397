//! Image buffers, engine-facing geometry checks, and error mapping.

use littlefs2_pack::config::ImageConfig;
use littlefs2_pack::image::{
    cache_size, check, check_positive, lookahead_size, validate_for_lfs, LfsError, LfsImage,
};

fn test_config() -> ImageConfig {
    ImageConfig::from(4096, 16, 256, 256)
}

#[test]
fn new_image_is_erased_flash() {
    let image = LfsImage::new(test_config()).unwrap();
    assert_eq!(image.data().len(), 4096 * 16);
    assert!(image.data().iter().all(|&b| b == 0xFF));
    assert_eq!(image.config().block_count(), 16);
}

#[test]
fn from_data_requires_exact_length() {
    let err = LfsImage::from_data(test_config(), vec![0u8; 100]).unwrap_err();
    assert!(matches!(err, LfsError::InvalidConfig(_)));
}

#[test]
fn image_data_round_trips() {
    let data = vec![0xABu8; 4096 * 16];
    let image = LfsImage::from_data(test_config(), data.clone()).unwrap();
    assert_eq!(image.into_data(), data);
}

#[test]
fn tiny_block_size_rejected() {
    let config = ImageConfig::from(64, 16, 16, 16);
    let err = validate_for_lfs(&config).unwrap_err();
    assert!(matches!(err, LfsError::InvalidConfig(m) if m == "block_size must be >= 128"));
}

#[test]
fn zero_block_count_rejected() {
    let config = ImageConfig::from(4096, 0, 256, 256);
    let err = validate_for_lfs(&config).unwrap_err();
    assert!(matches!(err, LfsError::InvalidConfig(m) if m == "block_count must be > 0"));
}

#[test]
fn zero_transfer_size_rejected() {
    let config = ImageConfig::from(4096, 16, 0, 256);
    let err = validate_for_lfs(&config).unwrap_err();
    assert!(matches!(err, LfsError::InvalidConfig(m) if m == "read_size and write_size must be > 0"));
}

#[test]
fn unaligned_read_size_rejected() {
    let config = ImageConfig::from(4096, 16, 384, 256);
    let err = validate_for_lfs(&config).unwrap_err();
    assert!(
        matches!(err, LfsError::InvalidConfig(m) if m == "block_size must be a multiple of read_size")
    );
}

#[test]
fn unaligned_write_size_rejected() {
    let config = ImageConfig::from(4096, 16, 256, 384);
    let err = validate_for_lfs(&config).unwrap_err();
    assert!(
        matches!(err, LfsError::InvalidConfig(m) if m == "block_size must be a multiple of write_size")
    );
}

#[test]
fn acceptable_geometry_passes() {
    assert!(validate_for_lfs(&test_config()).is_ok());
}

#[test]
fn cache_size_uses_larger_transfer_unit() {
    let config = ImageConfig::from(4096, 16, 256, 512);
    assert_eq!(cache_size(&config), 512);
}

#[test]
fn cache_size_falls_back_to_whole_block() {
    // 4096 is not a multiple of 640, so a whole block is cached.
    let config = ImageConfig::from(4096, 16, 256, 640);
    assert_eq!(cache_size(&config), 4096);
}

#[test]
fn lookahead_has_floor_of_sixteen_bytes() {
    // 16 blocks need 2 bitmap bytes, aligned to 8, floored at 16.
    assert_eq!(lookahead_size(&test_config()), 16);
}

#[test]
fn lookahead_grows_in_eight_byte_steps() {
    // 1000 blocks need 125 bitmap bytes, rounded up to 128.
    let config = ImageConfig::from(4096, 1000, 256, 256);
    assert_eq!(lookahead_size(&config), 128);
}

#[test]
fn zero_image_size_is_aligned_but_unusable() {
    // An image size of 0 is a whole number of blocks, so the geometry is
    // consistent; the engine still refuses it for having no blocks.
    let config = littlefs2_pack::config::ImageConfig {
        block_size: 4096,
        block_count: None,
        image_size: Some(0),
        page_size: Some(256),
        read_size: None,
        write_size: None,
        block_cycles: -1,
    };
    assert!(config.validate().is_ok());
    assert_eq!(config.block_count(), 0);
    let err = validate_for_lfs(&config).unwrap_err();
    assert!(matches!(err, LfsError::InvalidConfig(m) if m == "block_count must be > 0"));
}

#[test]
fn lookahead_rounds_up_just_past_the_floor() {
    // 129 blocks need 17 bitmap bytes, rounded up to 24.
    let config = ImageConfig::from(4096, 129, 256, 256);
    assert_eq!(lookahead_size(&config), 24);
}

#[test]
fn check_maps_negative_codes() {
    match check(-5).unwrap_err() {
        LfsError::Lfs(msg, code) => {
            assert_eq!(msg, "I/O error");
            assert_eq!(code, -5);
        },
        other => panic!("unexpected error: {:?}", other),
    }
    assert!(check(0).is_ok());
}

#[test]
fn check_positive_keeps_the_value() {
    assert_eq!(check_positive(7).unwrap(), 7);
    assert!(check_positive(-28).is_err());
}

#[test]
fn error_codes_have_their_documented_meanings() {
    let cases: Vec<(i32, &str)> = vec![
        (-5, "I/O error"),
        (-84, "Corrupted"),
        (-2, "No such file or directory"),
        (-17, "Entry already exists"),
        (-20, "Not a directory"),
        (-21, "Is a directory"),
        (-39, "Directory not empty"),
        (-9, "Bad file number"),
        (-27, "File too large"),
        (-22, "Invalid parameter"),
        (-28, "No space left on device"),
        (-12, "No memory available"),
        (-61, "No attribute found"),
        (-36, "File name too long"),
        (-1, "Unknown error"),
    ];
    for (code, want) in cases {
        match LfsError::from_lfs_error(code) {
            LfsError::Lfs(msg, got) => {
                assert_eq!(msg, want);
                assert_eq!(got, code);
            },
            other => panic!("unexpected error: {:?}", other),
        }
    }
}
