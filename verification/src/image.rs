//! The in-memory image buffer and the littlefs-facing geometry checks.
//!
//! An [`LfsImage`] is the simulated flash: a byte buffer whose length is the
//! configured image size, together with that configuration. Formatting and
//! mounting it is the block-storage engine's business, outside this crate;
//! here live the checks the engine's configuration must pass, the derived
//! cache and lookahead buffer sizes, and the mapping of its error codes.

use vstd::prelude::*;

use crate::config::ImageConfig;

verus! {

/// No error.
pub const LFS_ERR_OK: i32 = 0;

/// Error during device operation.
pub const LFS_ERR_IO: i32 = -5;

/// Corrupted.
pub const LFS_ERR_CORRUPT: i32 = -84;

/// No directory entry.
pub const LFS_ERR_NOENT: i32 = -2;

/// Entry already exists.
pub const LFS_ERR_EXIST: i32 = -17;

/// Entry is not a dir.
pub const LFS_ERR_NOTDIR: i32 = -20;

/// Entry is a dir.
pub const LFS_ERR_ISDIR: i32 = -21;

/// Dir is not empty.
pub const LFS_ERR_NOTEMPTY: i32 = -39;

/// Bad file number.
pub const LFS_ERR_BADF: i32 = -9;

/// File too large.
pub const LFS_ERR_FBIG: i32 = -27;

/// Invalid parameter.
pub const LFS_ERR_INVAL: i32 = -22;

/// No space left on device.
pub const LFS_ERR_NOSPC: i32 = -28;

/// No more memory available.
pub const LFS_ERR_NOMEM: i32 = -12;

/// No data/attr available.
pub const LFS_ERR_NOATTR: i32 = -61;

/// File name too long.
pub const LFS_ERR_NAMETOOLONG: i32 = -36;

/// Errors surfaced by littlefs operations.
#[derive(Debug)]
pub enum LfsError {
    /// A negative return code from the filesystem engine, with its meaning.
    Lfs(String, i32),
    /// The configuration cannot be used with the filesystem engine.
    InvalidConfig(String),
    /// An input/output failure around the engine.
    Io(String),
    /// A path holds an interior NUL byte.
    NulPath,
}

/// The message that belongs to a littlefs error code.
pub open spec fn spec_lfs_message(code: i32) -> Seq<char> {
    if code == LFS_ERR_IO {
        "I/O error"@
    } else if code == LFS_ERR_CORRUPT {
        "Corrupted"@
    } else if code == LFS_ERR_NOENT {
        "No such file or directory"@
    } else if code == LFS_ERR_EXIST {
        "Entry already exists"@
    } else if code == LFS_ERR_NOTDIR {
        "Not a directory"@
    } else if code == LFS_ERR_ISDIR {
        "Is a directory"@
    } else if code == LFS_ERR_NOTEMPTY {
        "Directory not empty"@
    } else if code == LFS_ERR_BADF {
        "Bad file number"@
    } else if code == LFS_ERR_FBIG {
        "File too large"@
    } else if code == LFS_ERR_INVAL {
        "Invalid parameter"@
    } else if code == LFS_ERR_NOSPC {
        "No space left on device"@
    } else if code == LFS_ERR_NOMEM {
        "No memory available"@
    } else if code == LFS_ERR_NOATTR {
        "No attribute found"@
    } else if code == LFS_ERR_NAMETOOLONG {
        "File name too long"@
    } else {
        "Unknown error"@
    }
}

impl LfsError {
    /// Wrap a littlefs return code with its documented meaning.
    pub fn from_lfs_error(code: i32) -> (r: LfsError)
        ensures
            r matches LfsError::Lfs(m, c) && m@ == spec_lfs_message(code) && c == code,
    {
        let msg: &str = if code == LFS_ERR_IO {
            "I/O error"
        } else if code == LFS_ERR_CORRUPT {
            "Corrupted"
        } else if code == LFS_ERR_NOENT {
            "No such file or directory"
        } else if code == LFS_ERR_EXIST {
            "Entry already exists"
        } else if code == LFS_ERR_NOTDIR {
            "Not a directory"
        } else if code == LFS_ERR_ISDIR {
            "Is a directory"
        } else if code == LFS_ERR_NOTEMPTY {
            "Directory not empty"
        } else if code == LFS_ERR_BADF {
            "Bad file number"
        } else if code == LFS_ERR_FBIG {
            "File too large"
        } else if code == LFS_ERR_INVAL {
            "Invalid parameter"
        } else if code == LFS_ERR_NOSPC {
            "No space left on device"
        } else if code == LFS_ERR_NOMEM {
            "No memory available"
        } else if code == LFS_ERR_NOATTR {
            "No attribute found"
        } else if code == LFS_ERR_NAMETOOLONG {
            "File name too long"
        } else {
            "Unknown error"
        };
        LfsError::Lfs(String::from_str(msg), code)
    }
}

/// Check a littlefs return code: `Ok(())` on success, the wrapped error on
/// negative codes.
pub fn check(code: i32) -> (r: Result<(), LfsError>)
    ensures
        code >= 0 ==> r is Ok,
        code < 0 ==> (r matches Err(LfsError::Lfs(m, c)) && m@ == spec_lfs_message(code) && c
            == code),
{
    if code < 0 {
        Err(LfsError::from_lfs_error(code))
    } else {
        Ok(())
    }
}

/// Check a littlefs return code and keep the non-negative value (such as a
/// number of bytes read or written).
pub fn check_positive(code: i32) -> (r: Result<usize, LfsError>)
    ensures
        code >= 0 ==> r == Ok::<usize, LfsError>(code as usize),
        code < 0 ==> (r matches Err(LfsError::Lfs(m, c)) && m@ == spec_lfs_message(code) && c
            == code),
{
    if code < 0 {
        Err(LfsError::from_lfs_error(code))
    } else {
        Ok(code as usize)
    }
}

/// The rules the littlefs engine imposes on a geometry: a block of at
/// least 128 bytes, at least one block, positive transfer sizes, and a
/// block size that is a whole multiple of each transfer size.
pub open spec fn spec_lfs_acceptable(c: ImageConfig) -> bool {
    &&& c.block_size >= 128
    &&& c.spec_block_count() > 0
    &&& c.spec_read_size() > 0
    &&& c.spec_write_size() > 0
    &&& c.block_size % c.spec_read_size() == 0
    &&& c.block_size % c.spec_write_size() == 0
}

/// Validate that a geometry is acceptable to the littlefs engine:
/// succeeds exactly on geometries satisfying [`spec_lfs_acceptable`].
pub fn validate_for_lfs(config: &ImageConfig) -> (r: Result<(), LfsError>)
    requires
        config.spec_valid(),
    ensures
        r is Ok <==> spec_lfs_acceptable(*config),
        r is Err ==> r matches Err(LfsError::InvalidConfig(_)),
        config.block_size < 128 ==> (r matches Err(LfsError::InvalidConfig(m)) && m@
            == "block_size must be >= 128"@),
        config.block_size >= 128 && config.spec_block_count() == 0 ==> (r matches Err(
            LfsError::InvalidConfig(m),
        ) && m@ == "block_count must be > 0"@),
        config.block_size >= 128 && config.spec_block_count() > 0 && (config.spec_read_size() == 0
            || config.spec_write_size() == 0) ==> (r matches Err(LfsError::InvalidConfig(m)) && m@
            == "read_size and write_size must be > 0"@),
{
    if config.block_size() < 128 {
        return Err(LfsError::InvalidConfig(String::from_str("block_size must be >= 128")));
    }
    if config.block_count() == 0 {
        return Err(LfsError::InvalidConfig(String::from_str("block_count must be > 0")));
    }
    if config.read_size() == 0 || config.write_size() == 0 {
        return Err(
            LfsError::InvalidConfig(String::from_str("read_size and write_size must be > 0")),
        );
    }
    if config.block_size() % config.read_size() != 0 {
        return Err(
            LfsError::InvalidConfig(
                String::from_str("block_size must be a multiple of read_size"),
            ),
        );
    }
    if config.block_size() % config.write_size() != 0 {
        return Err(
            LfsError::InvalidConfig(
                String::from_str("block_size must be a multiple of write_size"),
            ),
        );
    }
    Ok(())
}

/// The cache size handed to the littlefs engine: the larger transfer size
/// when it divides the block size evenly, else a whole block.
pub open spec fn spec_cache_size(c: ImageConfig) -> usize {
    let base = if c.spec_read_size() >= c.spec_write_size() {
        c.spec_read_size()
    } else {
        c.spec_write_size()
    };
    if c.block_size % base == 0 {
        base
    } else {
        c.block_size
    }
}

/// Determine the cache size for the littlefs engine, which requires a
/// cache that evenly divides the block size: the natural transfer unit
/// when it does, else the whole block.
pub fn cache_size(config: &ImageConfig) -> (r: usize)
    requires
        config.spec_valid(),
        config.spec_read_size() > 0 || config.spec_write_size() > 0,
    ensures
        r == spec_cache_size(*config),
{
    let rs = config.read_size();
    let ws = config.write_size();
    let base = if rs >= ws {
        rs
    } else {
        ws
    };
    if config.block_size() % base == 0 {
        base
    } else {
        config.block_size()
    }
}

/// The lookahead buffer size: one bit per block, rounded up to whole
/// bytes, rounded up again to a multiple of 8 bytes, never below 16.
pub open spec fn spec_lookahead_size(c: ImageConfig) -> int {
    let bytes_needed = (c.spec_block_count() + 7) / 8;
    let aligned = ((bytes_needed + 7) / 8) * 8;
    if aligned >= 16 {
        aligned
    } else {
        16
    }
}

/// Determine the lookahead buffer size for the littlefs engine, which
/// requires a multiple of 8 bytes: a bitmap covering every block, with a
/// floor of 16 bytes.
pub fn lookahead_size(config: &ImageConfig) -> (r: usize)
    requires
        config.spec_valid(),
        config.spec_block_count() + 7 <= usize::MAX,
    ensures
        r == spec_lookahead_size(*config),
{
    let bytes_needed = (config.block_count() + 7) / 8;
    let aligned = ((bytes_needed + 7) / 8) * 8;
    if aligned >= 16 {
        aligned
    } else {
        16
    }
}

/// An in-memory littlefs filesystem image: the raw bytes of the simulated
/// flash and the geometry they follow.
#[derive(Debug)]
pub struct LfsImage {
    /// The raw image data.
    pub data: Vec<u8>,
    /// The geometry of the image.
    pub config: ImageConfig,
}

impl LfsImage {
    /// A well-formed image holds a valid geometry and exactly as many
    /// bytes as that geometry prescribes.
    pub open spec fn spec_wf(&self) -> bool {
        &&& self.config.spec_valid()
        &&& spec_lfs_acceptable(self.config)
        &&& self.data@.len() == self.config.spec_image_size()
    }

    /// Create a blank image, every byte 0xFF (the erased flash state).
    /// Fails exactly when the geometry is unacceptable to the engine.
    pub fn new(config: ImageConfig) -> (r: Result<LfsImage, LfsError>)
        requires
            config.spec_valid(),
            config.spec_image_size() <= usize::MAX,
        ensures
            r is Ok <==> spec_lfs_acceptable(config),
            r matches Ok(img) ==> img.config == config && img.data@ =~= Seq::new(
                config.spec_image_size() as nat,
                |i: int| 0xFFu8,
            ) && img.spec_wf(),
            r is Err ==> r matches Err(LfsError::InvalidConfig(_)),
    {
        match validate_for_lfs(&config) {
            Ok(_) => {},
            Err(e) => {
                return Err(e);
            },
        }
        let total = config.image_size();
        let mut data: Vec<u8> = Vec::new();
        while data.len() < total
            invariant
                data@.len() <= total,
                forall|i: int| 0 <= i < data@.len() ==> data@[i] == 0xFFu8,
            decreases total - data@.len(),
        {
            data.push(0xFF);
        }
        Ok(LfsImage { data, config })
    }

    /// Wrap existing raw bytes (for instance, read back from an image
    /// file). Fails when the geometry is unacceptable or when the data
    /// length is not the geometry's image size.
    pub fn from_data(config: ImageConfig, data: Vec<u8>) -> (r: Result<LfsImage, LfsError>)
        requires
            config.spec_valid(),
            config.spec_image_size() <= usize::MAX,
        ensures
            r is Ok <==> (spec_lfs_acceptable(config) && data@.len()
                == config.spec_image_size()),
            r matches Ok(img) ==> img.config == config && img.data == data && img.spec_wf(),
            spec_lfs_acceptable(config) && data@.len() != config.spec_image_size() ==> (r matches
                Err(LfsError::InvalidConfig(m)) && m@
                == "data length doesn't match expected image size"@),
    {
        match validate_for_lfs(&config) {
            Ok(_) => {},
            Err(e) => {
                return Err(e);
            },
        }
        let expected = config.image_size();
        if data.len() != expected {
            return Err(
                LfsError::InvalidConfig(
                    String::from_str("data length doesn't match expected image size"),
                ),
            );
        }
        Ok(LfsImage { data, config })
    }

    /// Consume the image and keep the raw data buffer.
    pub fn into_data(self) -> (r: Vec<u8>)
        ensures
            r == self.data,
    {
        self.data
    }

    /// The raw image data.
    pub fn data(&self) -> (r: &Vec<u8>)
        ensures
            r == self.data,
    {
        &self.data
    }

    /// The geometry of the image.
    pub fn config(&self) -> (r: &ImageConfig)
        ensures
            r == self.config,
    {
        &self.config
    }
}

/// An entry of a directory listing inside an image.
#[derive(Debug, Clone)]
pub struct DirEntry {
    /// The entry's bare name.
    pub name: String,
    /// The file size in bytes; 0 for directories.
    pub size: usize,
    /// Whether the entry is a directory.
    pub is_dir: bool,
}

} // verus!
