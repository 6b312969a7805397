//! Image geometry and directory-traversal configuration.
//!
//! An [`ImageConfig`] may arrive only partially specified: exactly one of
//! `block_count` and `image_size` is given and the other is derived, and
//! `page_size` acts as a default for `read_size` and `write_size`.
//! [`ImageConfig::validate`] decides whether such a partial description is
//! consistent; the query methods then derive the missing quantities.

use vstd::prelude::*;

verus! {

/// Errors raised while validating a configuration.
#[derive(Debug)]
pub enum ConfigError {
    /// Both `block_count` and `image_size` were specified. Only one is allowed.
    BothSizingMethods,
    /// Neither `block_count` nor `image_size` was specified. One is required.
    NoSizingMethod,
    /// `image_size` is not an exact multiple of `block_size`.
    ImageSizeAlignment { image_size: usize, block_size: usize },
    /// A required size field is missing and no fallback was set.
    MissingSize(String),
    /// The configured root directory does not exist on disk.
    RootNotFound(String),
}

/// Littlefs image geometry.
///
/// Supports two mutually exclusive ways to give the total size:
/// `block_count` or `image_size`. `page_size` is a default for `read_size`
/// and `write_size` when they are not explicitly set.
#[derive(Clone, Debug)]
pub struct ImageConfig {
    pub block_size: usize,
    pub block_count: Option<usize>,
    pub image_size: Option<usize>,
    pub page_size: Option<usize>,
    pub read_size: Option<usize>,
    pub write_size: Option<usize>,
    pub block_cycles: i32,
}

impl ImageConfig {
    /// A geometry is consistent when every size query below is defined:
    /// read and write sizes are available (directly or through `page_size`)
    /// and exactly one sizing method is given, an explicit `image_size`
    /// being a whole number of blocks.
    pub open spec fn spec_valid(&self) -> bool {
        &&& (self.read_size is Some || self.page_size is Some)
        &&& (self.write_size is Some || self.page_size is Some)
        &&& match (self.block_count, self.image_size) {
            (Some(_), Some(_)) => false,
            (None, None) => false,
            (None, Some(s)) => self.block_size > 0 && s % self.block_size == 0,
            (Some(_), None) => true,
        }
    }

    /// The block count, given or derived as `image_size / block_size`.
    pub open spec fn spec_block_count(&self) -> usize
        recommends
            self.spec_valid(),
    {
        match (self.block_count, self.image_size) {
            (Some(c), None) => c,
            (None, Some(s)) => s / self.block_size,
            _ => 0,
        }
    }

    /// The image size in bytes, given or derived as `block_count * block_size`.
    /// Unbounded, so that the derived product cannot silently wrap.
    pub open spec fn spec_image_size(&self) -> int
        recommends
            self.spec_valid(),
    {
        match (self.block_count, self.image_size) {
            (None, Some(s)) => s as int,
            (Some(c), None) => c * self.block_size,
            _ => 0,
        }
    }

    /// The read size, falling back to `page_size` when not explicit.
    pub open spec fn spec_read_size(&self) -> usize
        recommends
            self.read_size is Some || self.page_size is Some,
    {
        if self.read_size is Some {
            self.read_size->0
        } else {
            self.page_size->0
        }
    }

    /// The write size, falling back to `page_size` when not explicit.
    pub open spec fn spec_write_size(&self) -> usize
        recommends
            self.write_size is Some || self.page_size is Some,
    {
        if self.write_size is Some {
            self.write_size->0
        } else {
            self.page_size->0
        }
    }

    /// Build a fully explicit geometry: block count and both transfer sizes
    /// given directly, no page-size fallback, wear leveling disabled.
    pub fn new(block_size: usize, block_count: usize, read_size: usize, write_size: usize) -> (r:
        Self)
        ensures
            r == (ImageConfig {
                block_size,
                block_count: Some(block_count),
                image_size: None,
                page_size: None,
                read_size: Some(read_size),
                write_size: Some(write_size),
                block_cycles: -1i32,
            }),
            r.spec_valid(),
    {
        ImageConfig {
            block_size,
            block_count: Some(block_count),
            image_size: None,
            page_size: None,
            read_size: Some(read_size),
            write_size: Some(write_size),
            block_cycles: -1i32,
        }
    }

    /// Same construction as [`ImageConfig::new`], under the name some callers
    /// use for a plain-values conversion.
    pub fn from(block_size: usize, block_count: usize, read_size: usize, write_size: usize) -> (r:
        Self)
        ensures
            r == ImageConfig::new_spec(block_size, block_count, read_size, write_size),
            r.spec_valid(),
    {
        ImageConfig::new(block_size, block_count, read_size, write_size)
    }

    /// What [`ImageConfig::new`] builds.
    pub open spec fn new_spec(
        block_size: usize,
        block_count: usize,
        read_size: usize,
        write_size: usize,
    ) -> ImageConfig {
        ImageConfig {
            block_size,
            block_count: Some(block_count),
            image_size: None,
            page_size: None,
            read_size: Some(read_size),
            write_size: Some(write_size),
            block_cycles: -1i32,
        }
    }

    /// The block (erase unit) size in bytes.
    pub fn block_size(&self) -> (r: usize)
        ensures
            r == self.block_size,
    {
        self.block_size
    }

    /// Block-cycle count for wear leveling. -1 disables wear leveling.
    pub fn block_cycles(&self) -> (r: i32)
        ensures
            r == self.block_cycles,
    {
        self.block_cycles
    }

    /// Validate that the geometry is internally consistent: succeeds exactly
    /// on configurations satisfying [`ImageConfig::spec_valid`], and names
    /// the first rule broken otherwise.
    pub fn validate(&self) -> (r: Result<(), ConfigError>)
        requires
            (self.block_count is None && self.image_size is Some) ==> self.block_size > 0,
        ensures
            r is Ok <==> self.spec_valid(),
            (self.read_size is None && self.page_size is None) ==> (r matches Err(
                ConfigError::MissingSize(f),
            ) && f@ == "read_size"@),
            (self.read_size is Some || self.page_size is Some) && (self.write_size is None
                && self.page_size is None) ==> (r matches Err(ConfigError::MissingSize(f))
                && f@ == "write_size"@),
            (self.read_size is Some || self.page_size is Some) && (self.write_size is Some
                || self.page_size is Some) ==> match (self.block_count, self.image_size) {
                (Some(_), Some(_)) => r matches Err(ConfigError::BothSizingMethods),
                (None, None) => r matches Err(ConfigError::NoSizingMethod),
                (None, Some(s)) => s % self.block_size != 0 ==> (r matches Err(
                    ConfigError::ImageSizeAlignment { image_size, block_size },
                ) && image_size == s && block_size == self.block_size),
                (Some(_), None) => r is Ok,
            },
    {
        if self.read_size.is_none() && self.page_size.is_none() {
            return Err(ConfigError::MissingSize(String::from_str("read_size")));
        }
        if self.write_size.is_none() && self.page_size.is_none() {
            return Err(ConfigError::MissingSize(String::from_str("write_size")));
        }
        match (self.block_count, self.image_size) {
            (Some(_), Some(_)) => Err(ConfigError::BothSizingMethods),
            (None, None) => Err(ConfigError::NoSizingMethod),
            (None, Some(s)) => {
                if s % self.block_size != 0 {
                    Err(
                        ConfigError::ImageSizeAlignment {
                            image_size: s,
                            block_size: self.block_size,
                        },
                    )
                } else {
                    Ok(())
                }
            },
            (Some(_), None) => Ok(()),
        }
    }

    /// The block count, either given directly or derived from
    /// `image_size / block_size`.
    pub fn block_count(&self) -> (r: usize)
        requires
            self.spec_valid(),
        ensures
            r == self.spec_block_count(),
    {
        match (self.block_count, self.image_size) {
            (Some(c), None) => c,
            (None, Some(s)) => s / self.block_size,
            _ => 0,
        }
    }

    /// The image size in bytes, either given directly or derived from
    /// `block_count * block_size`.
    pub fn image_size(&self) -> (r: usize)
        requires
            self.spec_valid(),
            self.spec_image_size() <= usize::MAX,
        ensures
            r == self.spec_image_size(),
    {
        match (self.block_count, self.image_size) {
            (None, Some(s)) => s,
            (Some(c), None) => c * self.block_size,
            _ => 0,
        }
    }

    /// The read size, falling back to `page_size` when not explicitly set.
    pub fn read_size(&self) -> (r: usize)
        requires
            self.read_size is Some || self.page_size is Some,
        ensures
            r == self.spec_read_size(),
    {
        match self.read_size {
            Some(r) => r,
            None => self.page_size.unwrap(),
        }
    }

    /// The write size, falling back to `page_size` when not explicitly set.
    pub fn write_size(&self) -> (r: usize)
        requires
            self.write_size is Some || self.page_size is Some,
        ensures
            r == self.spec_write_size(),
    {
        match self.write_size {
            Some(w) => w,
            None => self.page_size.unwrap(),
        }
    }
}

/// Inverse derivation law: in every consistent geometry the two sizing
/// quantities determine each other, so whichever was given, the image
/// size is the block count times the block size.
pub proof fn lemma_geometry_inverse(c: ImageConfig)
    requires
        c.spec_valid(),
    ensures
        c.spec_image_size() == c.spec_block_count() * c.block_size,
{
    match (c.block_count, c.image_size) {
        (None, Some(s)) => {
            vstd::arithmetic::div_mod::lemma_fundamental_div_mod(s as int, c.block_size as int);
        },
        _ => {},
    }
}

/// How one path is appended to another: an absolute second path stands
/// alone; otherwise a single separator joins the two, none being doubled.
pub open spec fn spec_path_join(base: Seq<char>, rel: Seq<char>) -> Seq<char> {
    if rel.len() > 0 && rel[0] == '/' {
        rel
    } else if base.len() == 0 {
        rel
    } else if base.last() == '/' {
        base + rel
    } else {
        base + seq!['/'] + rel
    }
}

/// Directory traversal settings for collecting files into the image.
///
/// Controls which local directory to pack, how deep to recurse, and
/// which entries to keep or drop via ignore rules and glob patterns.
#[derive(Clone, Debug)]
pub struct DirectoryConfig {
    pub root: String,
    pub depth: i32,
    pub ignore_hidden: bool,
    pub gitignore: bool,
    pub repo_gitignore: bool,
    pub glob_ignores: Vec<String>,
    pub glob_includes: Vec<String>,
}

impl DirectoryConfig {
    /// Gather the traversal settings into one value.
    pub fn new(
        root: String,
        depth: i32,
        ignore_hidden: bool,
        gitignore: bool,
        repo_gitignore: bool,
        glob_ignores: Vec<String>,
        glob_includes: Vec<String>,
    ) -> (r: Self)
        ensures
            r == (DirectoryConfig {
                root,
                depth,
                ignore_hidden,
                gitignore,
                repo_gitignore,
                glob_ignores,
                glob_includes,
            }),
    {
        DirectoryConfig { root, depth, ignore_hidden, gitignore, repo_gitignore, glob_ignores, glob_includes }
    }

    /// The configured root directory path, as written.
    pub fn root(&self) -> (r: &str)
        ensures
            r@ == self.root@,
    {
        self.root.as_str()
    }

    /// Maximum recursive directory depth. -1 means unlimited.
    pub fn depth(&self) -> (r: i32)
        ensures
            r == self.depth,
    {
        self.depth
    }

    /// Whether to skip hidden files and directories.
    pub fn ignore_hidden(&self) -> (r: bool)
        ensures
            r == self.ignore_hidden,
    {
        self.ignore_hidden
    }

    /// Whether to respect per-directory VCS ignore files in the tree.
    pub fn gitignore(&self) -> (r: bool)
        ensures
            r == self.gitignore,
    {
        self.gitignore
    }

    /// Whether to also respect the repository-level VCS ignore rules.
    /// Only meaningful when `gitignore` is `true`.
    pub fn repo_gitignore(&self) -> (r: bool)
        ensures
            r == self.repo_gitignore,
    {
        self.repo_gitignore
    }

    /// Glob patterns for files and directories to exclude.
    pub fn glob_ignores(&self) -> (r: &Vec<String>)
        ensures
            r == self.glob_ignores,
    {
        &self.glob_ignores
    }

    /// Glob patterns for entries to force into the image, superseding the
    /// exclusion rules.
    pub fn glob_includes(&self) -> (r: &Vec<String>)
        ensures
            r == self.glob_includes,
    {
        &self.glob_includes
    }

    /// The root path resolved against a base directory.
    pub fn resolved_root(&self, base: &str) -> (r: String)
        ensures
            r@ == spec_path_join(base@, self.root@),
    {
        join_path(base, self.root.as_str())
    }

    /// Resolve the root path against a base directory; `root_is_dir` reports
    /// whether that resolved path names a directory on disk, which only the
    /// caller can see. Fails exactly when it does not.
    pub fn resolve_root(&self, base: &str, root_is_dir: bool) -> (r: Result<
        String,
        ConfigError,
    >)
        ensures
            root_is_dir ==> (r matches Ok(p) && p@ == spec_path_join(base@, self.root@)),
            !root_is_dir ==> (r matches Err(ConfigError::RootNotFound(p)) && p@ == spec_path_join(
                base@,
                self.root@,
            )),
    {
        let joined = join_path(base, self.root.as_str());
        if root_is_dir {
            Ok(joined)
        } else {
            Err(ConfigError::RootNotFound(joined))
        }
    }
}

/// Append `rel` to `base` as [`spec_path_join`] describes.
fn join_path(base: &str, rel: &str) -> (r: String)
    ensures
        r@ == spec_path_join(base@, rel@),
{
    let rel_len = rel.unicode_len();
    if rel_len > 0 && rel.get_char(0) == '/' {
        return String::from_str(rel);
    }
    let base_len = base.unicode_len();
    if base_len == 0 {
        return String::from_str(rel);
    }
    let mut out = String::from_str(base);
    if base.get_char(base_len - 1) == '/' {
        out.append(rel);
        out
    } else {
        out.append("/");
        proof {
            reveal_strlit("/");
            assert(out@ =~= base@ + seq!['/']);
        }
        let mut out2 = out;
        out2.append(rel);
        proof {
            assert(out2@ =~= base@ + seq!['/'] + rel@);
        }
        out2
    }
}

/// Top-level configuration: image geometry, directory settings, and the
/// base directory against which a relative root is resolved.
#[derive(Clone, Debug)]
pub struct Config {
    pub image: ImageConfig,
    pub directory: DirectoryConfig,
    pub base_dir: String,
}

impl Config {
    /// Gather the two sections and the resolution base into one value.
    pub fn new(image: ImageConfig, directory: DirectoryConfig, base_dir: String) -> (r: Self)
        ensures
            r == (Config { image, directory, base_dir }),
    {
        Config { image, directory, base_dir }
    }

    /// The directory against which a relative root is resolved.
    pub fn base_dir(&self) -> (r: &str)
        ensures
            r@ == self.base_dir@,
    {
        self.base_dir.as_str()
    }
}

} // verus!
