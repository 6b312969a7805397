//! Layering of command-line geometry parameters over configured values.
//!
//! A [`ImageConfigParams`] value holds what the user passed explicitly, every
//! field optional. It can stand alone, override a configuration loaded from a
//! file, or describe an existing image whose block count is dictated by the
//! image file's size.

use vstd::prelude::*;

use crate::config::{ConfigError, ImageConfig};

verus! {

/// Geometry parameters as given on a command line: all optional.
#[derive(Clone, Debug)]
pub struct ImageConfigParams {
    /// Filesystem block (erase unit) size in bytes.
    pub block_size: Option<usize>,
    /// Total number of blocks in the filesystem.
    pub block_count: Option<usize>,
    /// Total image size in bytes (alternative to a block count).
    pub image_size: Option<usize>,
    /// Page size in bytes; default for read and write size.
    pub page_size: Option<usize>,
    /// Minimum read size in bytes.
    pub read_size: Option<usize>,
    /// Minimum program (write) size in bytes.
    pub write_size: Option<usize>,
    /// Block-cycle count for wear leveling (-1 disables).
    pub block_cycles: Option<i32>,
}

/// The geometry described by command-line parameters alone.
pub open spec fn spec_cli_config(cli: ImageConfigParams) -> ImageConfig {
    ImageConfig {
        block_size: cli.block_size->0,
        block_count: cli.block_count,
        image_size: cli.image_size,
        page_size: cli.page_size,
        read_size: cli.read_size,
        write_size: cli.write_size,
        block_cycles: if cli.block_cycles is Some {
            cli.block_cycles->0
        } else {
            -1i32
        },
    }
}

/// Build a geometry entirely from command-line parameters.
///
/// Fails when no block size was given, and otherwise exactly when the
/// described geometry is inconsistent.
pub fn image_config_from_cli(cli: &ImageConfigParams) -> (r: Result<ImageConfig, ConfigError>)
    requires
        (cli.block_size is Some && cli.block_count is None && cli.image_size is Some)
            ==> cli.block_size->0 > 0,
    ensures
        cli.block_size is None ==> (r matches Err(ConfigError::MissingSize(f)) && f@
            == "block_size"@),
        cli.block_size is Some ==> (r is Ok <==> spec_cli_config(*cli).spec_valid()),
        (cli.block_size is Some && spec_cli_config(*cli).spec_valid()) ==> r == Ok::<
            ImageConfig,
            ConfigError,
        >(spec_cli_config(*cli)),
{
    let block_size = match cli.block_size {
        Some(bs) => bs,
        None => {
            return Err(ConfigError::MissingSize(String::from_str("block_size")));
        },
    };
    let config = ImageConfig {
        block_size,
        block_count: cli.block_count,
        image_size: cli.image_size,
        page_size: cli.page_size,
        read_size: cli.read_size,
        write_size: cli.write_size,
        block_cycles: match cli.block_cycles {
            Some(c) => c,
            None => -1,
        },
    };
    match config.validate() {
        Ok(_) => Ok(config),
        Err(e) => Err(e),
    }
}

/// A configured geometry with command-line parameters layered on top:
/// every explicitly passed value replaces the configured one, an explicit
/// image size displaces the configured block count, and the result is
/// fully resolved (no page-size fallback remains).
pub open spec fn spec_overridden(base: ImageConfig, cli: ImageConfigParams) -> ImageConfig {
    ImageConfig {
        block_size: if cli.block_size is Some {
            cli.block_size->0
        } else {
            base.block_size
        },
        block_count: if cli.image_size is Some {
            None
        } else if cli.block_count is Some {
            cli.block_count
        } else {
            Some(base.spec_block_count())
        },
        image_size: cli.image_size,
        page_size: None,
        read_size: Some(
            if cli.read_size is Some {
                cli.read_size->0
            } else {
                base.spec_read_size()
            },
        ),
        write_size: Some(
            if cli.write_size is Some {
                cli.write_size->0
            } else {
                base.spec_write_size()
            },
        ),
        block_cycles: if cli.block_cycles is Some {
            cli.block_cycles->0
        } else {
            base.block_cycles
        },
    }
}

/// Apply command-line overrides to a geometry loaded from a configuration
/// file. The combination must remain consistent: an explicit image size,
/// for instance, must still be a whole number of the effective blocks.
pub fn apply_cli_overrides(base: &ImageConfig, cli: &ImageConfigParams) -> (r: ImageConfig)
    requires
        base.spec_valid(),
        spec_overridden(*base, *cli).spec_valid(),
    ensures
        r == spec_overridden(*base, *cli),
{
    let block_count = if cli.image_size.is_some() {
        None
    } else {
        match cli.block_count {
            Some(c) => Some(c),
            None => Some(base.block_count()),
        }
    };
    ImageConfig {
        block_size: match cli.block_size {
            Some(bs) => bs,
            None => base.block_size(),
        },
        block_count,
        image_size: cli.image_size,
        page_size: None,
        read_size: Some(
            match cli.read_size {
                Some(rs) => rs,
                None => base.read_size(),
            },
        ),
        write_size: Some(
            match cli.write_size {
                Some(ws) => ws,
                None => base.write_size(),
            },
        ),
        block_cycles: match cli.block_cycles {
            Some(c) => c,
            None => base.block_cycles(),
        },
    }
}

/// The block size used when reading an existing image: an explicit
/// parameter, else the configured one.
pub open spec fn spec_reading_block_size(toml: Option<ImageConfig>, cli: ImageConfigParams) -> usize {
    match toml {
        Some(c) => if cli.block_size is Some {
            cli.block_size->0
        } else {
            c.block_size
        },
        None => cli.block_size->0,
    }
}

/// The read size used when reading an existing image.
pub open spec fn spec_reading_read_size(toml: Option<ImageConfig>, cli: ImageConfigParams) -> usize {
    match toml {
        Some(c) => if cli.read_size is Some {
            cli.read_size->0
        } else {
            c.spec_read_size()
        },
        None => if cli.read_size is Some {
            cli.read_size->0
        } else {
            cli.page_size->0
        },
    }
}

/// The write size used when reading an existing image.
pub open spec fn spec_reading_write_size(toml: Option<ImageConfig>, cli: ImageConfigParams) -> usize {
    match toml {
        Some(c) => if cli.write_size is Some {
            cli.write_size->0
        } else {
            c.spec_write_size()
        },
        None => if cli.write_size is Some {
            cli.write_size->0
        } else {
            cli.page_size->0
        },
    }
}

/// The block-cycle count used when reading an existing image.
pub open spec fn spec_reading_block_cycles(toml: Option<ImageConfig>, cli: ImageConfigParams) -> i32 {
    if cli.block_cycles is Some {
        cli.block_cycles->0
    } else {
        match toml {
            Some(c) => c.block_cycles,
            None => -1i32,
        }
    }
}

/// The geometry under which an existing image of `len` bytes is read:
/// its block count comes from the file size, everything else from the
/// configuration and the command line.
pub open spec fn spec_reading_config(
    toml: Option<ImageConfig>,
    cli: ImageConfigParams,
    len: usize,
) -> ImageConfig {
    ImageConfig {
        block_size: spec_reading_block_size(toml, cli),
        block_count: Some((len / spec_reading_block_size(toml, cli)) as usize),
        image_size: None,
        page_size: None,
        read_size: Some(spec_reading_read_size(toml, cli)),
        write_size: Some(spec_reading_write_size(toml, cli)),
        block_cycles: spec_reading_block_cycles(toml, cli),
    }
}

/// Whether reading parameters are complete: with no configuration file,
/// block size and both transfer sizes must come from the command line.
pub open spec fn spec_reading_complete(toml: Option<ImageConfig>, cli: ImageConfigParams) -> bool {
    toml is Some || (cli.block_size is Some && (cli.read_size is Some || cli.page_size is Some) && (
    cli.write_size is Some || cli.page_size is Some))
}

/// Resolve the geometry for reading an existing image file of `data.len()`
/// bytes. The file is the source of truth for the image's size, so the
/// block count is derived from it; it must be a positive whole number of
/// blocks. Missing parameters fail first, then the size check.
pub fn image_config_for_reading(
    toml_image: &Option<ImageConfig>,
    cli: &ImageConfigParams,
    data: &[u8],
) -> (r: Result<ImageConfig, ConfigError>)
    requires
        toml_image matches Some(c) ==> c.spec_valid(),
        (spec_reading_complete(*toml_image, *cli) && data@.len() > 0) ==> spec_reading_block_size(
            *toml_image,
            *cli,
        ) > 0,
    ensures
        (toml_image is None && cli.block_size is None) ==> (r matches Err(
            ConfigError::MissingSize(f),
        ) && f@ == "block_size"@),
        (toml_image is None && cli.block_size is Some && cli.read_size is None && cli.page_size
            is None) ==> (r matches Err(ConfigError::MissingSize(f)) && f@ == "read_size"@),
        (toml_image is None && cli.block_size is Some && (cli.read_size is Some || cli.page_size
            is Some) && cli.write_size is None && cli.page_size is None) ==> (r matches Err(
            ConfigError::MissingSize(f),
        ) && f@ == "write_size"@),
        spec_reading_complete(*toml_image, *cli) ==> {
            let bs = spec_reading_block_size(*toml_image, *cli);
            if data@.len() == 0 || data@.len() % (bs as nat) != 0 {
                r matches Err(ConfigError::ImageSizeAlignment { image_size, block_size })
                    && image_size == data@.len() && block_size == bs
            } else {
                r == Ok::<ImageConfig, ConfigError>(
                    spec_reading_config(*toml_image, *cli, data@.len() as usize),
                )
            }
        },
{
    let (block_size, read_size, write_size, block_cycles): (usize, usize, usize, i32) =
        match toml_image {
        Some(c) => (
            match cli.block_size {
                Some(bs) => bs,
                None => c.block_size(),
            },
            match cli.read_size {
                Some(rs) => rs,
                None => c.read_size(),
            },
            match cli.write_size {
                Some(ws) => ws,
                None => c.write_size(),
            },
            match cli.block_cycles {
                Some(bc) => bc,
                None => c.block_cycles(),
            },
        ),
        None => {
            let bs = match cli.block_size {
                Some(bs) => bs,
                None => {
                    return Err(ConfigError::MissingSize(String::from_str("block_size")));
                },
            };
            let rs = match cli.read_size {
                Some(rs) => rs,
                None => match cli.page_size {
                    Some(ps) => ps,
                    None => {
                        return Err(ConfigError::MissingSize(String::from_str("read_size")));
                    },
                },
            };
            let ws = match cli.write_size {
                Some(ws) => ws,
                None => match cli.page_size {
                    Some(ps) => ps,
                    None => {
                        return Err(ConfigError::MissingSize(String::from_str("write_size")));
                    },
                },
            };
            let bc = match cli.block_cycles {
                Some(bc) => bc,
                None => -1,
            };
            (bs, rs, ws, bc)
        },
    };
    if data.len() == 0 || data.len() % block_size != 0 {
        return Err(
            ConfigError::ImageSizeAlignment { image_size: data.len(), block_size },
        );
    }
    Ok(
        ImageConfig {
            block_size,
            block_count: Some(data.len() / block_size),
            image_size: None,
            page_size: None,
            read_size: Some(read_size),
            write_size: Some(write_size),
            block_cycles,
        },
    )
}

} // verus!
