//! Turning a directory tree into a deterministic pack plan.
//!
//! The traversal of the host filesystem happens outside this crate and
//! arrives here as plain entries: a host path, whether it is a directory,
//! and a file's bytes. Two traversals feed one plan. The primary entries
//! have already passed the hidden-file, VCS-ignore and enumeration rules;
//! this module applies the override layer (ignore globs, and the whitelist
//! that any force-include pattern switches on) and the depth limit. The
//! rescue entries come from an unrestricted traversal and recover what the
//! primary one pruned: an entry whose bare name matches a force-include
//! pattern enters the plan, a rescued file bringing every missing ancestor
//! directory with it. The plan keeps directories and files strictly
//! sorted by image path, so identical trees give identical plans whatever
//! order the traversals produced.

use vstd::prelude::*;

use crate::config::DirectoryConfig;
use crate::globs::{any_glob_matches, matches_any};
use crate::image::LfsError;
use crate::paths::{
    basename, count_char, count_char_in, insert_sorted_string, lemma_lex_total, lemma_lex_trans,
    lex_lt, spec_basename, str_lex_lt, str_seq_contains, strictly_sorted_strings,
};

verus! {

/// Errors raised while packing a directory tree.
#[derive(Debug)]
pub enum PackError {
    /// The filesystem engine refused an operation.
    Lfs(LfsError),
    /// The directory traversal failed.
    Walk(String),
    /// An input/output failure while reading the tree.
    Io(String),
    /// A host path is not under the pack root, or not valid UTF-8.
    InvalidPath(String),
}

/// One entry of a host directory traversal: the host path, whether it is
/// a directory, and a file's full content (empty for directories).
#[derive(Debug, Clone)]
pub struct WalkEntry {
    /// The host path as the traversal yielded it.
    pub path: String,
    /// Whether the entry is a directory.
    pub is_dir: bool,
    /// The file's content; empty for directories.
    pub data: Vec<u8>,
}

/// A file of the pack plan: its image path and its content.
#[derive(Debug)]
pub struct PackFile {
    /// The absolute image path the file will be written at.
    pub path: String,
    /// The bytes to write.
    pub data: Vec<u8>,
}

/// The reconciled, deduplicated and sorted set of directories to create
/// and files to write, in the order they are to be applied.
#[derive(Debug)]
pub struct PackPlan {
    /// Image paths of the directories to create, strictly ascending.
    pub dirs: Vec<String>,
    /// The files to write, strictly ascending by image path.
    pub files: Vec<PackFile>,
}

/// Whether `host` lies strictly below `root`: it extends it at a
/// separator boundary.
pub open spec fn under_root(host: Seq<char>, root: Seq<char>) -> bool {
    &&& host.len() > root.len()
    &&& host.subrange(0, root.len() as int) == root
    &&& host[root.len() as int] == '/'
}

/// The image path of a host path: `/` for the root itself, else the part
/// below the root, separator included.
pub open spec fn spec_image_path(host: Seq<char>, root: Seq<char>) -> Seq<char> {
    if host == root {
        seq!['/']
    } else {
        host.skip(root.len() as int)
    }
}

/// Convert a host path to an image path by stripping the root prefix:
/// succeeds exactly on the root itself and on paths strictly below it.
pub fn to_lfs_path(host: &str, root: &str) -> (r: Result<String, PackError>)
    ensures
        r is Ok <==> (host@ == root@ || under_root(host@, root@)),
        r matches Ok(p) ==> p@ == spec_image_path(host@, root@),
        r matches Err(e) ==> (e matches PackError::InvalidPath(q) && q@ == host@),
{
    let hlen = host.unicode_len();
    let rlen = root.unicode_len();
    if hlen < rlen {
        return Err(PackError::InvalidPath(String::from_str(host)));
    }
    let mut i: usize = 0;
    while i < rlen
        invariant
            hlen == host@.len(),
            rlen == root@.len(),
            rlen <= hlen,
            i <= rlen,
            forall|j: int| 0 <= j < i ==> host@[j] == root@[j],
        decreases rlen - i,
    {
        if host.get_char(i) != root.get_char(i) {
            proof {
                assert(host@ != root@);
                if under_root(host@, root@) {
                    assert(host@.subrange(0, rlen as int)[i as int] == root@[i as int]);
                }
            }
            return Err(PackError::InvalidPath(String::from_str(host)));
        }
        i = i + 1;
    }
    proof {
        assert(host@.subrange(0, rlen as int) =~= root@);
    }
    if hlen == rlen {
        proof {
            assert(host@ =~= root@);
            reveal_strlit("/");
        }
        let out = String::from_str("/");
        proof {
            assert(out@ =~= seq!['/']);
        }
        return Ok(out);
    }
    if host.get_char(rlen) == '/' {
        let sub = host.substring_char(rlen, hlen);
        proof {
            assert(host@ != root@);
            assert(sub@ =~= host@.skip(rlen as int));
        }
        Ok(String::from_str(sub))
    } else {
        proof {
            assert(host@ != root@);
        }
        Err(PackError::InvalidPath(String::from_str(host)))
    }
}

/// The root-relative form of an image path: the leading slash dropped.
pub open spec fn rel_of(ip: Seq<char>) -> Seq<char> {
    ip.skip(1)
}

/// Whether the override layer whitelists the entry: some force-include
/// pattern matches its relative path.
pub open spec fn override_whitelisted(cfg: DirectoryConfig, ip: Seq<char>, is_dir: bool) -> bool {
    matches_any(cfg.glob_includes@, rel_of(ip), is_dir)
}

/// Whether the override layer ignores the entry: some ignore pattern
/// matches its relative path and no force-include pattern does (a later
/// include pattern beats an earlier ignore pattern).
pub open spec fn override_ignored(cfg: DirectoryConfig, ip: Seq<char>, is_dir: bool) -> bool {
    &&& !override_whitelisted(cfg, ip, is_dir)
    &&& matches_any(cfg.glob_ignores@, rel_of(ip), is_dir)
}

/// Whether the override layer excludes the entry itself: it is ignored,
/// or it is a file, some force-include pattern exists, and none matches
/// it. The second case is the whitelist rule: the presence of any include
/// pattern makes a file's inclusion conditional on matching one, even for
/// files no ignore pattern ever targeted. Directories stay unaffected, so
/// the traversal still descends into them.
pub open spec fn override_excluded(cfg: DirectoryConfig, ip: Seq<char>, is_dir: bool) -> bool {
    ||| override_ignored(cfg, ip, is_dir)
    ||| (!is_dir && cfg.glob_includes@.len() > 0 && !override_whitelisted(cfg, ip, is_dir))
}

/// Whether some ancestor directory of the image path is ignored: the
/// traversal prunes such a directory whole, so everything below it is
/// excluded.
pub open spec fn ancestor_pruned(cfg: DirectoryConfig, ip: Seq<char>) -> bool {
    exists|j: int|
        1 <= j < ip.len() && ip[j] == '/' && override_ignored(cfg, ip.subrange(0, j), true)
}

/// Whether the image path is within the configured depth: its number of
/// components, which is its number of separators, does not exceed it.
/// A negative configured depth means unlimited.
pub open spec fn depth_ok(cfg: DirectoryConfig, ip: Seq<char>) -> bool {
    cfg.depth >= 0 ==> count_char(ip, '/') <= cfg.depth as int
}

/// Whether the primary traversal keeps an entry: within depth, not
/// excluded by the override layer, and below no ignored directory.
pub open spec fn primary_selected(cfg: DirectoryConfig, ip: Seq<char>, is_dir: bool) -> bool {
    &&& depth_ok(cfg, ip)
    &&& !override_excluded(cfg, ip, is_dir)
    &&& !ancestor_pruned(cfg, ip)
}

/// Whether the rescue traversal keeps an entry: force-include patterns
/// exist, the entry is within depth, and its bare name matches one of
/// them.
pub open spec fn rescue_selected(cfg: DirectoryConfig, ip: Seq<char>, is_dir: bool) -> bool {
    &&& cfg.glob_includes@.len() > 0
    &&& depth_ok(cfg, ip)
    &&& matches_any(cfg.glob_includes@, spec_basename(ip), is_dir)
}

/// Decide [`primary_selected`] for an image path.
pub fn primary_selected_exec(cfg: &DirectoryConfig, ip: &str, is_dir: bool) -> (r: bool)
    requires
        ip@.len() >= 1,
    ensures
        r == primary_selected(*cfg, ip@, is_dir),
{
    if cfg.depth >= 0 {
        let cnt = count_char_in(ip, '/');
        if cnt > (cfg.depth as usize) {
            return false;
        }
    }
    let len = ip.unicode_len();
    let rel = ip.substring_char(1, len);
    proof {
        assert(rel@ =~= rel_of(ip@));
    }
    let wl = any_glob_matches(&cfg.glob_includes, rel, is_dir);
    let ig = any_glob_matches(&cfg.glob_ignores, rel, is_dir);
    if !wl && (ig || (!is_dir && cfg.glob_includes.len() > 0)) {
        return false;
    }
    let mut j: usize = 1;
    while j < len
        invariant
            len == ip@.len(),
            1 <= len,
            1 <= j <= len,
            forall|t: int|
                1 <= t < j ==> !(ip@[t] == '/' && override_ignored(
                    *cfg,
                    ip@.subrange(0, t),
                    true,
                )),
        decreases len - j,
    {
        if ip.get_char(j) == '/' {
            let anc_rel = ip.substring_char(1, j);
            proof {
                assert(anc_rel@ =~= rel_of(ip@.subrange(0, j as int)));
            }
            let awl = any_glob_matches(&cfg.glob_includes, anc_rel, true);
            let aig = any_glob_matches(&cfg.glob_ignores, anc_rel, true);
            if !awl && aig {
                proof {
                    assert(override_ignored(*cfg, ip@.subrange(0, j as int), true));
                    assert(ancestor_pruned(*cfg, ip@));
                }
                return false;
            }
        }
        j = j + 1;
    }
    proof {
        assert(!ancestor_pruned(*cfg, ip@));
    }
    true
}

/// Decide [`rescue_selected`] for an image path.
pub fn rescue_selected_exec(cfg: &DirectoryConfig, ip: &str, is_dir: bool) -> (r: bool)
    ensures
        r == rescue_selected(*cfg, ip@, is_dir),
{
    if cfg.glob_includes.len() == 0 {
        return false;
    }
    if cfg.depth >= 0 {
        let cnt = count_char_in(ip, '/');
        if cnt > (cfg.depth as usize) {
            return false;
        }
    }
    let name = basename(ip);
    any_glob_matches(&cfg.glob_includes, name.as_str(), is_dir)
}

/// Whether some file of the sequence has this path and content.
pub open spec fn file_seq_contains(s: Seq<PackFile>, p: Seq<char>, d: Seq<u8>) -> bool {
    exists|i: int| 0 <= i < s.len() && s[i].path@ == p && s[i].data@ == d
}

/// Whether some file of the sequence has this path.
pub open spec fn file_seq_has_path(s: Seq<PackFile>, p: Seq<char>) -> bool {
    exists|i: int| 0 <= i < s.len() && s[i].path@ == p
}

/// Strictly ascending by image path under [`lex_lt`]; in particular,
/// paths are unique.
pub open spec fn strictly_sorted_files(s: Seq<PackFile>) -> bool {
    forall|i: int, j: int| 0 <= i < j < s.len() ==> lex_lt(s[i].path@, s[j].path@)
}

/// Insert a file into a vector strictly sorted by path, keeping it so; a
/// file whose path is already present is dropped.
fn insert_sorted_file(v: &mut Vec<PackFile>, f: PackFile)
    requires
        strictly_sorted_files(old(v)@),
    ensures
        strictly_sorted_files(final(v)@),
        file_seq_has_path(old(v)@, f.path@) ==> final(v)@ == old(v)@,
        !file_seq_has_path(old(v)@, f.path@) ==> forall|p: Seq<char>, d: Seq<u8>|
            #[trigger] file_seq_contains(final(v)@, p, d) <==> (file_seq_contains(old(v)@, p, d)
                || (p == f.path@ && d == f.data@)),
{
    let ghost orig = v@;
    let mut i: usize = 0;
    while i < v.len() && str_lex_lt(v[i].path.as_str(), f.path.as_str())
        invariant
            v@ == orig,
            strictly_sorted_files(orig),
            i <= v@.len(),
            forall|j: int| 0 <= j < i ==> lex_lt(orig[j].path@, f.path@),
        decreases v@.len() - i,
    {
        i = i + 1;
    }
    if i < v.len() && v[i].path == f.path {
        proof {
            assert(file_seq_has_path(orig, f.path@));
        }
        return ;
    }
    proof {
        if i < orig.len() {
            lemma_lex_total(orig[i as int].path@, f.path@);
        }
        assert forall|k: int| i <= k < orig.len() implies lex_lt(f.path@, orig[k].path@) by {
            if k > i {
                lemma_lex_trans(f.path@, orig[i as int].path@, orig[k].path@);
            }
        }
        assert forall|k: int| 0 <= k < orig.len() implies orig[k].path@ != f.path@ by {
            if k < i {
                crate::paths::lemma_lex_asym(orig[k].path@, f.path@);
            } else {
                crate::paths::lemma_lex_asym(f.path@, orig[k].path@);
            }
        }
        assert(!file_seq_has_path(orig, f.path@));
    }
    let ghost fv = f;
    v.insert(i, f);
    proof {
        let new = v@;
        assert(new =~= orig.insert(i as int, fv));
        assert forall|x: int, y: int| 0 <= x < y < new.len() implies lex_lt(
            new[x].path@,
            new[y].path@,
        ) by {
            if x < i && y > i {
                assert(new[y] == orig[y - 1]);
            } else if x == i && y > i {
                assert(new[y] == orig[y - 1]);
            } else if x > i {
                assert(new[x] == orig[x - 1]);
                assert(new[y] == orig[y - 1]);
            }
        }
        assert forall|p: Seq<char>, d: Seq<u8>| #[trigger]
            file_seq_contains(new, p, d) implies (file_seq_contains(orig, p, d) || (p == fv.path@
            && d == fv.data@)) by {
            let w = choose|w: int| 0 <= w < new.len() && new[w].path@ == p && new[w].data@ == d;
            if w < i {
                assert(orig[w].path@ == p && orig[w].data@ == d);
            } else if w > i {
                assert(orig[w - 1].path@ == p && orig[w - 1].data@ == d);
            }
        }
        assert forall|p: Seq<char>, d: Seq<u8>|
            file_seq_contains(orig, p, d) || (p == fv.path@ && d == fv.data@) implies #[trigger]
        file_seq_contains(new, p, d) by {
            if file_seq_contains(orig, p, d) {
                let w = choose|w: int| 0 <= w < orig.len() && orig[w].path@ == p && orig[w].data@
                    == d;
                if w < i {
                    assert(new[w].path@ == p && new[w].data@ == d);
                } else {
                    assert(new[w + 1].path@ == p && new[w + 1].data@ == d);
                }
            } else {
                assert(new[i as int].path@ == p && new[i as int].data@ == d);
            }
        }
    }
}

/// Copy a byte vector.
fn copy_bytes(src: &Vec<u8>) -> (r: Vec<u8>)
    ensures
        r@ == src@,
{
    let mut out: Vec<u8> = Vec::new();
    let mut i: usize = 0;
    while i < src.len()
        invariant
            i <= src@.len(),
            out@ =~= src@.subrange(0, i as int),
        decreases src@.len() - i,
    {
        out.push(src[i]);
        i = i + 1;
        proof {
            assert(out@ =~= src@.subrange(0, i as int));
        }
    }
    proof {
        assert(out@ =~= src@);
    }
    out
}

/// Whether the entry's host path is the root or lies below it, so that it
/// has an image path at all.
pub open spec fn entry_ok(e: WalkEntry, root: Seq<char>) -> bool {
    e.path@ == root || under_root(e.path@, root)
}

/// The entry's image path.
pub open spec fn ipath_of(e: WalkEntry, root: Seq<char>) -> Seq<char> {
    spec_image_path(e.path@, root)
}

/// Whether every entry of the traversal lies under the root.
pub open spec fn all_under(s: Seq<WalkEntry>, root: Seq<char>) -> bool {
    forall|i: int| 0 <= i < s.len() ==> entry_ok(#[trigger] s[i], root)
}

/// Whether the entries describe one tree: two entries at the same image
/// path agree on their kind and content.
pub open spec fn entries_consistent(s: Seq<WalkEntry>, root: Seq<char>) -> bool {
    forall|i: int, j: int|
        0 <= i < s.len() && 0 <= j < s.len() && ipath_of(#[trigger] s[i], root) == ipath_of(
            #[trigger] s[j],
            root,
        ) ==> (s[i].is_dir == s[j].is_dir && s[i].data@ == s[j].data@)
}

/// Whether `p` is a proper ancestor of the image path `q`: a prefix of it
/// ending just before a separator.
pub open spec fn is_ancestor(p: Seq<char>, q: Seq<char>) -> bool {
    exists|j: int| 1 <= j < q.len() && q[j] == '/' && q.subrange(0, j) == p
}

/// A directory the primary traversal contributes at image path `p`.
pub open spec fn dir_from_primary(
    cfg: DirectoryConfig,
    root: Seq<char>,
    a: Seq<WalkEntry>,
    p: Seq<char>,
) -> bool {
    exists|k: int|
        0 <= k < a.len() && #[trigger] a[k].is_dir && ipath_of(a[k], root) == p
            && primary_selected(cfg, p, true)
}

/// A directory the rescue traversal contributes at image path `p`.
pub open spec fn dir_from_rescue(
    cfg: DirectoryConfig,
    root: Seq<char>,
    b: Seq<WalkEntry>,
    p: Seq<char>,
) -> bool {
    exists|k: int|
        0 <= k < b.len() && #[trigger] b[k].is_dir && ipath_of(b[k], root) == p
            && rescue_selected(cfg, p, true)
}

/// A directory synthesized at image path `p` as a missing ancestor of a
/// rescued file.
pub open spec fn dir_from_ancestors(
    cfg: DirectoryConfig,
    root: Seq<char>,
    b: Seq<WalkEntry>,
    p: Seq<char>,
) -> bool {
    exists|k: int|
        0 <= k < b.len() && !(#[trigger] b[k].is_dir) && rescue_selected(
            cfg,
            ipath_of(b[k], root),
            false,
        ) && is_ancestor(p, ipath_of(b[k], root))
}

/// Whether the plan holds a directory at image path `p`.
pub open spec fn plan_dir_wanted(
    cfg: DirectoryConfig,
    root: Seq<char>,
    a: Seq<WalkEntry>,
    b: Seq<WalkEntry>,
    p: Seq<char>,
) -> bool {
    ||| dir_from_primary(cfg, root, a, p)
    ||| dir_from_rescue(cfg, root, b, p)
    ||| dir_from_ancestors(cfg, root, b, p)
}

/// A file the primary traversal contributes: image path `p`, content `d`.
pub open spec fn file_from_primary(
    cfg: DirectoryConfig,
    root: Seq<char>,
    a: Seq<WalkEntry>,
    p: Seq<char>,
    d: Seq<u8>,
) -> bool {
    exists|k: int|
        0 <= k < a.len() && !(#[trigger] a[k].is_dir) && ipath_of(a[k], root) == p && a[k].data@
            == d && primary_selected(cfg, p, false)
}

/// A file the rescue traversal contributes: image path `p`, content `d`.
pub open spec fn file_from_rescue(
    cfg: DirectoryConfig,
    root: Seq<char>,
    b: Seq<WalkEntry>,
    p: Seq<char>,
    d: Seq<u8>,
) -> bool {
    exists|k: int|
        0 <= k < b.len() && !(#[trigger] b[k].is_dir) && ipath_of(b[k], root) == p && b[k].data@
            == d && rescue_selected(cfg, p, false)
}

/// Whether the plan holds a file with image path `p` and content `d`.
pub open spec fn plan_file_wanted(
    cfg: DirectoryConfig,
    root: Seq<char>,
    a: Seq<WalkEntry>,
    b: Seq<WalkEntry>,
    p: Seq<char>,
    d: Seq<u8>,
) -> bool {
    ||| file_from_primary(cfg, root, a, p, d)
    ||| file_from_rescue(cfg, root, b, p, d)
}

/// One more primary entry contributes one more possible directory.
proof fn lemma_dir_from_primary_push(
    cfg: DirectoryConfig,
    root: Seq<char>,
    a: Seq<WalkEntry>,
    i: int,
    p: Seq<char>,
)
    requires
        0 <= i < a.len(),
    ensures
        dir_from_primary(cfg, root, a.subrange(0, i + 1), p) <==> (dir_from_primary(
            cfg,
            root,
            a.subrange(0, i),
            p,
        ) || (a[i].is_dir && ipath_of(a[i], root) == p && primary_selected(cfg, p, true))),
{
    let s1 = a.subrange(0, i + 1);
    let s0 = a.subrange(0, i);
    assert(s1 =~= s0.push(a[i]));
    if dir_from_primary(cfg, root, s1, p) {
        let k = choose|k: int|
            0 <= k < s1.len() && #[trigger] s1[k].is_dir && ipath_of(s1[k], root) == p
                && primary_selected(cfg, p, true);
        if k < i {
            assert(s0[k] == s1[k]);
            assert(s0[k].is_dir && ipath_of(s0[k], root) == p);
        } else {
            assert(s1[k] == a[i]);
        }
    }
    if dir_from_primary(cfg, root, s0, p) {
        let k = choose|k: int|
            0 <= k < s0.len() && #[trigger] s0[k].is_dir && ipath_of(s0[k], root) == p
                && primary_selected(cfg, p, true);
        assert(s1[k] == s0[k]);
        assert(s1[k].is_dir && ipath_of(s1[k], root) == p);
    }
    if a[i].is_dir && ipath_of(a[i], root) == p && primary_selected(cfg, p, true) {
        assert(s1[i] == a[i]);
        assert(s1[i].is_dir && ipath_of(s1[i], root) == p);
    }
}

/// One more primary entry contributes one more possible file.
proof fn lemma_file_from_primary_push(
    cfg: DirectoryConfig,
    root: Seq<char>,
    a: Seq<WalkEntry>,
    i: int,
    p: Seq<char>,
    d: Seq<u8>,
)
    requires
        0 <= i < a.len(),
    ensures
        file_from_primary(cfg, root, a.subrange(0, i + 1), p, d) <==> (file_from_primary(
            cfg,
            root,
            a.subrange(0, i),
            p,
            d,
        ) || (!a[i].is_dir && ipath_of(a[i], root) == p && a[i].data@ == d && primary_selected(
            cfg,
            p,
            false,
        ))),
{
    let s1 = a.subrange(0, i + 1);
    let s0 = a.subrange(0, i);
    assert(s1 =~= s0.push(a[i]));
    if file_from_primary(cfg, root, s1, p, d) {
        let k = choose|k: int|
            0 <= k < s1.len() && !(#[trigger] s1[k].is_dir) && ipath_of(s1[k], root) == p
                && s1[k].data@ == d && primary_selected(cfg, p, false);
        if k < i {
            assert(s0[k] == s1[k]);
            assert(!s0[k].is_dir && ipath_of(s0[k], root) == p && s0[k].data@ == d);
        } else {
            assert(s1[k] == a[i]);
        }
    }
    if file_from_primary(cfg, root, s0, p, d) {
        let k = choose|k: int|
            0 <= k < s0.len() && !(#[trigger] s0[k].is_dir) && ipath_of(s0[k], root) == p
                && s0[k].data@ == d && primary_selected(cfg, p, false);
        assert(s1[k] == s0[k]);
        assert(!s1[k].is_dir && ipath_of(s1[k], root) == p && s1[k].data@ == d);
    }
    if !a[i].is_dir && ipath_of(a[i], root) == p && a[i].data@ == d && primary_selected(
        cfg,
        p,
        false,
    ) {
        assert(s1[i] == a[i]);
        assert(!s1[i].is_dir && ipath_of(s1[i], root) == p && s1[i].data@ == d);
    }
}

/// One more rescue entry contributes one more possible directory.
proof fn lemma_dir_from_rescue_push(
    cfg: DirectoryConfig,
    root: Seq<char>,
    b: Seq<WalkEntry>,
    j: int,
    p: Seq<char>,
)
    requires
        0 <= j < b.len(),
    ensures
        dir_from_rescue(cfg, root, b.subrange(0, j + 1), p) <==> (dir_from_rescue(
            cfg,
            root,
            b.subrange(0, j),
            p,
        ) || (b[j].is_dir && ipath_of(b[j], root) == p && rescue_selected(cfg, p, true))),
{
    let s1 = b.subrange(0, j + 1);
    let s0 = b.subrange(0, j);
    assert(s1 =~= s0.push(b[j]));
    if dir_from_rescue(cfg, root, s1, p) {
        let k = choose|k: int|
            0 <= k < s1.len() && #[trigger] s1[k].is_dir && ipath_of(s1[k], root) == p
                && rescue_selected(cfg, p, true);
        if k < j {
            assert(s0[k] == s1[k]);
            assert(s0[k].is_dir && ipath_of(s0[k], root) == p);
        } else {
            assert(s1[k] == b[j]);
        }
    }
    if dir_from_rescue(cfg, root, s0, p) {
        let k = choose|k: int|
            0 <= k < s0.len() && #[trigger] s0[k].is_dir && ipath_of(s0[k], root) == p
                && rescue_selected(cfg, p, true);
        assert(s1[k] == s0[k]);
        assert(s1[k].is_dir && ipath_of(s1[k], root) == p);
    }
    if b[j].is_dir && ipath_of(b[j], root) == p && rescue_selected(cfg, p, true) {
        assert(s1[j] == b[j]);
        assert(s1[j].is_dir && ipath_of(s1[j], root) == p);
    }
}

/// One more rescue entry contributes one more set of possible ancestors.
proof fn lemma_dir_from_ancestors_push(
    cfg: DirectoryConfig,
    root: Seq<char>,
    b: Seq<WalkEntry>,
    j: int,
    p: Seq<char>,
)
    requires
        0 <= j < b.len(),
    ensures
        dir_from_ancestors(cfg, root, b.subrange(0, j + 1), p) <==> (dir_from_ancestors(
            cfg,
            root,
            b.subrange(0, j),
            p,
        ) || (!b[j].is_dir && rescue_selected(cfg, ipath_of(b[j], root), false) && is_ancestor(
            p,
            ipath_of(b[j], root),
        ))),
{
    let s1 = b.subrange(0, j + 1);
    let s0 = b.subrange(0, j);
    assert(s1 =~= s0.push(b[j]));
    if dir_from_ancestors(cfg, root, s1, p) {
        let k = choose|k: int|
            0 <= k < s1.len() && !(#[trigger] s1[k].is_dir) && rescue_selected(
                cfg,
                ipath_of(s1[k], root),
                false,
            ) && is_ancestor(p, ipath_of(s1[k], root));
        if k < j {
            assert(s0[k] == s1[k]);
            assert(!s0[k].is_dir && rescue_selected(cfg, ipath_of(s0[k], root), false)
                && is_ancestor(p, ipath_of(s0[k], root)));
        } else {
            assert(s1[k] == b[j]);
        }
    }
    if dir_from_ancestors(cfg, root, s0, p) {
        let k = choose|k: int|
            0 <= k < s0.len() && !(#[trigger] s0[k].is_dir) && rescue_selected(
                cfg,
                ipath_of(s0[k], root),
                false,
            ) && is_ancestor(p, ipath_of(s0[k], root));
        assert(s1[k] == s0[k]);
        assert(!s1[k].is_dir && rescue_selected(cfg, ipath_of(s1[k], root), false) && is_ancestor(
            p,
            ipath_of(s1[k], root),
        ));
    }
    if !b[j].is_dir && rescue_selected(cfg, ipath_of(b[j], root), false) && is_ancestor(
        p,
        ipath_of(b[j], root),
    ) {
        assert(s1[j] == b[j]);
        assert(!s1[j].is_dir && rescue_selected(cfg, ipath_of(s1[j], root), false) && is_ancestor(
            p,
            ipath_of(s1[j], root),
        ));
    }
}

/// One more rescue entry contributes one more possible file.
proof fn lemma_file_from_rescue_push(
    cfg: DirectoryConfig,
    root: Seq<char>,
    b: Seq<WalkEntry>,
    j: int,
    p: Seq<char>,
    d: Seq<u8>,
)
    requires
        0 <= j < b.len(),
    ensures
        file_from_rescue(cfg, root, b.subrange(0, j + 1), p, d) <==> (file_from_rescue(
            cfg,
            root,
            b.subrange(0, j),
            p,
            d,
        ) || (!b[j].is_dir && ipath_of(b[j], root) == p && b[j].data@ == d && rescue_selected(
            cfg,
            p,
            false,
        ))),
{
    let s1 = b.subrange(0, j + 1);
    let s0 = b.subrange(0, j);
    assert(s1 =~= s0.push(b[j]));
    if file_from_rescue(cfg, root, s1, p, d) {
        let k = choose|k: int|
            0 <= k < s1.len() && !(#[trigger] s1[k].is_dir) && ipath_of(s1[k], root) == p
                && s1[k].data@ == d && rescue_selected(cfg, p, false);
        if k < j {
            assert(s0[k] == s1[k]);
            assert(!s0[k].is_dir && ipath_of(s0[k], root) == p && s0[k].data@ == d);
        } else {
            assert(s1[k] == b[j]);
        }
    }
    if file_from_rescue(cfg, root, s0, p, d) {
        let k = choose|k: int|
            0 <= k < s0.len() && !(#[trigger] s0[k].is_dir) && ipath_of(s0[k], root) == p
                && s0[k].data@ == d && rescue_selected(cfg, p, false);
        assert(s1[k] == s0[k]);
        assert(!s1[k].is_dir && ipath_of(s1[k], root) == p && s1[k].data@ == d);
    }
    if !b[j].is_dir && ipath_of(b[j], root) == p && b[j].data@ == d && rescue_selected(
        cfg,
        p,
        false,
    ) {
        assert(s1[j] == b[j]);
        assert(!s1[j].is_dir && ipath_of(s1[j], root) == p && s1[j].data@ == d);
    }
}

/// What [`pack_directory`] promises of a returned plan: both parts are
/// strictly sorted by image path, and their membership is exactly what
/// the traversals warrant — nothing enumeration-order-dependent remains.
pub open spec fn plan_matches(
    plan: PackPlan,
    cfg: DirectoryConfig,
    root: Seq<char>,
    a: Seq<WalkEntry>,
    b: Seq<WalkEntry>,
) -> bool {
    &&& strictly_sorted_strings(plan.dirs@)
    &&& strictly_sorted_files(plan.files@)
    &&& forall|p: Seq<char>|
        #[trigger] str_seq_contains(plan.dirs@, p) <==> plan_dir_wanted(cfg, root, a, b, p)
    &&& forall|p: Seq<char>, d: Seq<u8>|
        #[trigger] file_seq_contains(plan.files@, p, d) <==> plan_file_wanted(cfg, root, a, b, p, d)
}

/// Reconcile the two traversals of one directory tree into a pack plan.
///
/// The primary entries already satisfy the hidden-file, VCS-ignore and
/// enumeration rules; of them, exactly those within depth, not excluded
/// by the override layer and below no ignored directory enter the plan.
/// When force-include patterns exist, every rescue entry within depth
/// whose bare name matches one of them enters too, a rescued file
/// bringing all of its ancestor directories with it; with no such
/// patterns the rescue entries are not looked at. The plan is a set:
/// duplicates collapse, and both parts come out strictly sorted by image
/// path. Fails exactly when an examined entry does not lie under `root`.
pub fn pack_directory(
    config: &DirectoryConfig,
    root: &str,
    primary: &Vec<WalkEntry>,
    rescue: &Vec<WalkEntry>,
) -> (r: Result<PackPlan, PackError>)
    requires
        entries_consistent(primary@ + rescue@, root@),
    ensures
        r is Ok <==> (all_under(primary@, root@) && (config.glob_includes@.len() > 0
            ==> all_under(rescue@, root@))),
        r matches Ok(plan) ==> plan_matches(plan, *config, root@, primary@, rescue@),
        r matches Err(PackError::InvalidPath(q)) ==> exists|k: int|
            0 <= k < (primary@ + rescue@).len() && (primary@ + rescue@)[k].path@ == q@ && !entry_ok(
                (primary@ + rescue@)[k],
                root@,
            ),
        r is Err ==> r matches Err(PackError::InvalidPath(_)),
{
    let ghost av = primary@;
    let ghost bv = rescue@;
    let ghost rv = root@;
    let ghost cfg = *config;
    let mut dirs: Vec<String> = Vec::new();
    let mut files: Vec<PackFile> = Vec::new();
    let mut i: usize = 0;
    while i < primary.len()
        invariant
            primary@ == av,
            rescue@ == bv,
            root@ == rv,
            *config == cfg,
            i <= av.len(),
            entries_consistent(av + bv, rv),
            strictly_sorted_strings(dirs@),
            strictly_sorted_files(files@),
            forall|k: int| 0 <= k < i ==> entry_ok(#[trigger] av[k], rv),
            forall|p: Seq<char>|
                #[trigger] str_seq_contains(dirs@, p) <==> dir_from_primary(
                    cfg,
                    rv,
                    av.subrange(0, i as int),
                    p,
                ),
            forall|p: Seq<char>, d: Seq<u8>|
                #[trigger] file_seq_contains(files@, p, d) <==> file_from_primary(
                    cfg,
                    rv,
                    av.subrange(0, i as int),
                    p,
                    d,
                ),
        decreases av.len() - i,
    {
        let e = &primary[i];
        let ip = match to_lfs_path(e.path.as_str(), root) {
            Ok(p) => p,
            Err(err) => {
                proof {
                    assert(!entry_ok(av[i as int], rv));
                    assert(!all_under(av, rv));
                    assert((av + bv)[i as int] == av[i as int]);
                    assert(av + bv == primary@ + rescue@);
                    assert(exists|k: int|
                        0 <= k < (primary@ + rescue@).len() && (primary@ + rescue@)[k].path@
                            == av[i as int].path@ && !entry_ok((primary@ + rescue@)[k], root@));
                }
                return Err(err);
            },
        };
        let ghost ipv = ip@;
        proof {
            assert(ipath_of(av[i as int], rv) == ipv);
            if av[i as int].path@ == rv {
                assert(ipv =~= seq!['/']);
            }
            assert(ipv.len() >= 1);
        }
        let ghost dirs0 = dirs@;
        let ghost files0 = files@;
        let selected = primary_selected_exec(config, ip.as_str(), e.is_dir);
        if selected {
            if e.is_dir {
                insert_sorted_string(&mut dirs, ip);
            } else {
                let content = copy_bytes(&e.data);
                insert_sorted_file(&mut files, PackFile { path: ip, data: content });
            }
        }
        proof {
            let efst = av[i as int];
            assert forall|p: Seq<char>| #[trigger]
                str_seq_contains(dirs@, p) <==> dir_from_primary(
                    cfg,
                    rv,
                    av.subrange(0, i + 1),
                    p,
                ) by {
                lemma_dir_from_primary_push(cfg, rv, av, i as int, p);
                if selected && efst.is_dir {
                } else {
                    assert(dirs@ == dirs0);
                }
            }
            assert forall|p: Seq<char>, d: Seq<u8>| #[trigger]
                file_seq_contains(files@, p, d) <==> file_from_primary(
                    cfg,
                    rv,
                    av.subrange(0, i + 1),
                    p,
                    d,
                ) by {
                lemma_file_from_primary_push(cfg, rv, av, i as int, p, d);
                if selected && !efst.is_dir {
                    if file_seq_has_path(files0, ipv) {
                        assert(files@ == files0);
                        // The entry was already collected: by consistency it
                        // carried the same bytes, so membership is unchanged.
                        let w = choose|w: int| 0 <= w < files0.len() && files0[w].path@ == ipv;
                        assert(file_seq_contains(files0, ipv, files0[w].data@));
                        assert(file_from_primary(
                            cfg,
                            rv,
                            av.subrange(0, i as int),
                            ipv,
                            files0[w].data@,
                        ));
                        let k = choose|k: int|
                            0 <= k < av.subrange(0, i as int).len() && !(#[trigger] av.subrange(
                                0,
                                i as int,
                            )[k].is_dir) && ipath_of(av.subrange(0, i as int)[k], rv) == ipv
                                && av.subrange(0, i as int)[k].data@ == files0[w].data@
                                && primary_selected(cfg, ipv, false);
                        assert((av + bv)[k] == av[k]);
                        assert((av + bv)[i as int] == av[i as int]);
                        assert(ipath_of((av + bv)[k], rv) == ipath_of((av + bv)[i as int], rv));
                        assert(files0[w].data@ == efst.data@);
                    }
                } else {
                    assert(files@ == files0);
                }
            }
        }
        i = i + 1;
    }
    proof {
        assert(av.subrange(0, av.len() as int) =~= av);
    }
    if config.glob_includes.len() > 0 {
        let mut j: usize = 0;
        while j < rescue.len()
            invariant
                primary@ == av,
                rescue@ == bv,
                root@ == rv,
                *config == cfg,
                j <= bv.len(),
                cfg.glob_includes@.len() > 0,
                all_under(av, rv),
                entries_consistent(av + bv, rv),
                strictly_sorted_strings(dirs@),
                strictly_sorted_files(files@),
                forall|k: int| 0 <= k < j ==> entry_ok(#[trigger] bv[k], rv),
                forall|p: Seq<char>|
                    #[trigger] str_seq_contains(dirs@, p) <==> (dir_from_primary(cfg, rv, av, p)
                        || dir_from_rescue(cfg, rv, bv.subrange(0, j as int), p)
                        || dir_from_ancestors(cfg, rv, bv.subrange(0, j as int), p)),
                forall|p: Seq<char>, d: Seq<u8>|
                    #[trigger] file_seq_contains(files@, p, d) <==> (file_from_primary(
                        cfg,
                        rv,
                        av,
                        p,
                        d,
                    ) || file_from_rescue(cfg, rv, bv.subrange(0, j as int), p, d)),
            decreases bv.len() - j,
        {
            let e = &rescue[j];
            let ip = match to_lfs_path(e.path.as_str(), root) {
                Ok(p) => p,
                Err(err) => {
                    proof {
                        assert(!entry_ok(bv[j as int], rv));
                        assert(!all_under(bv, rv));
                        assert((av + bv)[av.len() + j] == bv[j as int]);
                        assert(av + bv == primary@ + rescue@);
                        assert(exists|k: int|
                            0 <= k < (primary@ + rescue@).len() && (primary@ + rescue@)[k].path@
                                == bv[j as int].path@ && !entry_ok((primary@ + rescue@)[k], root@));
                    }
                    return Err(err);
                },
            };
            let ghost ipv = ip@;
            proof {
                assert(ipath_of(bv[j as int], rv) == ipv);
                if bv[j as int].path@ == rv {
                    assert(ipv =~= seq!['/']);
                }
                assert(ipv.len() >= 1);
            }
            let ghost dirs0 = dirs@;
            let ghost files0 = files@;
            let selected = rescue_selected_exec(config, ip.as_str(), e.is_dir);
            if selected {
                if e.is_dir {
                    insert_sorted_string(&mut dirs, ip);
                } else {
                    // Synthesize every ancestor directory of the rescued
                    // file, so it stays reachable even when the primary
                    // traversal pruned its whole parent chain.
                    let len = ip.unicode_len();
                    let mut t: usize = 1;
                    while t < len
                        invariant
                            1 <= len,
                            1 <= t <= len,
                            len == ipv.len(),
                            ip@ == ipv,
                            strictly_sorted_strings(dirs@),
                            forall|p: Seq<char>|
                                #[trigger] str_seq_contains(dirs@, p) <==> (str_seq_contains(
                                    dirs0,
                                    p,
                                ) || (exists|u: int|
                                    1 <= u < t && ipv[u] == '/' && ipv.subrange(0, u) == p)),
                        decreases len - t,
                    {
                        let ghost dirs_in = dirs@;
                        if ip.get_char(t) == '/' {
                            let anc = ip.substring_char(0, t);
                            insert_sorted_string(&mut dirs, String::from_str(anc));
                            proof {
                                assert(anc@ =~= ipv.subrange(0, t as int));
                            }
                        }
                        proof {
                            assert forall|p: Seq<char>| #[trigger]
                                str_seq_contains(dirs@, p) <==> (str_seq_contains(dirs0, p) || (
                                exists|u: int|
                                    1 <= u < t + 1 && ipv[u] == '/' && ipv.subrange(0, u)
                                        == p)) by {
                                if str_seq_contains(dirs@, p) {
                                    if !str_seq_contains(dirs0, p) {
                                        if str_seq_contains(dirs_in, p) {
                                            let u = choose|u: int|
                                                1 <= u < t && ipv[u] == '/' && ipv.subrange(0, u)
                                                    == p;
                                            assert(1 <= u < t + 1 && ipv[u] == '/' && ipv.subrange(
                                                0,
                                                u,
                                            ) == p);
                                        } else {
                                            assert(ipv[t as int] == '/' && ipv.subrange(
                                                0,
                                                t as int,
                                            ) == p);
                                        }
                                    }
                                } else {
                                    if exists|u: int|
                                        1 <= u < t + 1 && ipv[u] == '/' && ipv.subrange(0, u)
                                            == p {
                                        let u = choose|u: int|
                                            1 <= u < t + 1 && ipv[u] == '/' && ipv.subrange(0, u)
                                                == p;
                                        if u < t {
                                            assert(str_seq_contains(dirs_in, p));
                                        } else {
                                            assert(ip@[t as int] == '/');
                                            assert(str_seq_contains(dirs@, p));
                                        }
                                        assert(false);
                                    }
                                }
                            }
                        }
                        t = t + 1;
                    }
                    proof {
                        assert forall|p: Seq<char>| #[trigger]
                            str_seq_contains(dirs@, p) <==> (str_seq_contains(dirs0, p)
                                || is_ancestor(p, ipv)) by {
                            assert((exists|u: int|
                                1 <= u < t && ipv[u] == '/' && ipv.subrange(0, u) == p)
                                == is_ancestor(p, ipv));
                        }
                    }
                    let content = copy_bytes(&e.data);
                    insert_sorted_file(&mut files, PackFile { path: ip, data: content });
                }
            }
            proof {
                let efst = bv[j as int];
                assert forall|p: Seq<char>| #[trigger]
                    str_seq_contains(dirs@, p) <==> (dir_from_primary(cfg, rv, av, p)
                        || dir_from_rescue(cfg, rv, bv.subrange(0, j + 1), p)
                        || dir_from_ancestors(cfg, rv, bv.subrange(0, j + 1), p)) by {
                    lemma_dir_from_rescue_push(cfg, rv, bv, j as int, p);
                    lemma_dir_from_ancestors_push(cfg, rv, bv, j as int, p);
                    if !selected {
                        assert(dirs@ == dirs0);
                    } else if efst.is_dir {
                    } else {
                    }
                }
                assert forall|p: Seq<char>, d: Seq<u8>| #[trigger]
                    file_seq_contains(files@, p, d) <==> (file_from_primary(cfg, rv, av, p, d)
                        || file_from_rescue(cfg, rv, bv.subrange(0, j + 1), p, d)) by {
                    lemma_file_from_rescue_push(cfg, rv, bv, j as int, p, d);
                    if selected && !efst.is_dir {
                        if file_seq_has_path(files0, ipv) {
                            assert(files@ == files0);
                            let w = choose|w: int| 0 <= w < files0.len() && files0[w].path@ == ipv;
                            assert(file_seq_contains(files0, ipv, files0[w].data@));
                            if file_from_primary(cfg, rv, av, ipv, files0[w].data@) {
                                let k = choose|k: int|
                                    0 <= k < av.len() && !(#[trigger] av[k].is_dir) && ipath_of(
                                        av[k],
                                        rv,
                                    ) == ipv && av[k].data@ == files0[w].data@ && primary_selected(
                                        cfg,
                                        ipv,
                                        false,
                                    );
                                assert((av + bv)[k] == av[k]);
                                assert((av + bv)[av.len() + j] == bv[j as int]);
                                assert(files0[w].data@ == efst.data@);
                            } else {
                                let k = choose|k: int|
                                    0 <= k < bv.subrange(0, j as int).len() && !(#[trigger] bv.subrange(
                                        0,
                                        j as int,
                                    )[k].is_dir) && ipath_of(bv.subrange(0, j as int)[k], rv)
                                        == ipv && bv.subrange(0, j as int)[k].data@
                                        == files0[w].data@ && rescue_selected(cfg, ipv, false);
                                assert((av + bv)[av.len() + k] == bv[k]);
                                assert((av + bv)[av.len() + j] == bv[j as int]);
                                assert(files0[w].data@ == efst.data@);
                            }
                        }
                    } else {
                        assert(files@ == files0);
                    }
                }
            }
            j = j + 1;
        }
        proof {
            assert(bv.subrange(0, bv.len() as int) =~= bv);
        }
    } else {
        proof {
            assert forall|p: Seq<char>| !dir_from_rescue(cfg, rv, bv, p) by {
                if dir_from_rescue(cfg, rv, bv, p) {
                    let k = choose|k: int|
                        0 <= k < bv.len() && #[trigger] bv[k].is_dir && ipath_of(bv[k], rv) == p
                            && rescue_selected(cfg, p, true);
                    assert(false);
                }
            }
            assert forall|p: Seq<char>| !dir_from_ancestors(cfg, rv, bv, p) by {
                if dir_from_ancestors(cfg, rv, bv, p) {
                    let k = choose|k: int|
                        0 <= k < bv.len() && !(#[trigger] bv[k].is_dir) && rescue_selected(
                            cfg,
                            ipath_of(bv[k], rv),
                            false,
                        ) && is_ancestor(p, ipath_of(bv[k], rv));
                    assert(false);
                }
            }
            assert forall|p: Seq<char>, d: Seq<u8>| !file_from_rescue(cfg, rv, bv, p, d) by {
                if file_from_rescue(cfg, rv, bv, p, d) {
                    let k = choose|k: int|
                        0 <= k < bv.len() && !(#[trigger] bv[k].is_dir) && ipath_of(bv[k], rv) == p
                            && bv[k].data@ == d && rescue_selected(cfg, p, false);
                    assert(false);
                }
            }
        }
    }
    Ok(PackPlan { dirs, files })
}

/// The directory part of a plan, as plain character sequences.
pub open spec fn dir_views(s: Seq<String>) -> Seq<Seq<char>> {
    s.map_values(|x: String| x@)
}

/// The file part of a plan, as plain path and content sequences.
pub open spec fn file_views(s: Seq<PackFile>) -> Seq<(Seq<char>, Seq<u8>)> {
    s.map_values(|f: PackFile| (f.path@, f.data@))
}

/// The order is irreflexive.
proof fn lemma_lex_irrefl(a: Seq<char>)
    ensures
        !lex_lt(a, a),
{
    if lex_lt(a, a) {
        crate::paths::lemma_lex_asym(a, a);
    }
}

/// Two strictly sorted string sequences with the same members read the
/// same.
proof fn lemma_sorted_same_members_equal(s1: Seq<String>, s2: Seq<String>)
    requires
        strictly_sorted_strings(s1),
        strictly_sorted_strings(s2),
        forall|p: Seq<char>| str_seq_contains(s1, p) <==> str_seq_contains(s2, p),
    ensures
        dir_views(s1) == dir_views(s2),
    decreases s1.len(),
{
    if s1.len() == 0 {
        if s2.len() > 0 {
            assert(str_seq_contains(s2, s2[0]@));
            assert(str_seq_contains(s1, s2[0]@));
            assert(false);
        }
        assert(dir_views(s1) =~= dir_views(s2));
    } else if s2.len() == 0 {
        assert(str_seq_contains(s1, s1[0]@));
        assert(str_seq_contains(s2, s1[0]@));
        assert(false);
    } else {
        assert(str_seq_contains(s1, s1[0]@));
        let k = choose|k: int| 0 <= k < s2.len() && s2[k]@ == s1[0]@;
        assert(str_seq_contains(s2, s2[0]@));
        let m = choose|m: int| 0 <= m < s1.len() && s1[m]@ == s2[0]@;
        if k > 0 && m > 0 {
            assert(lex_lt(s2[0]@, s2[k]@));
            assert(lex_lt(s1[0]@, s1[m]@));
            crate::paths::lemma_lex_asym(s2[0]@, s1[0]@);
            assert(false);
        }
        assert(s1[0]@ == s2[0]@);
        let t1 = s1.skip(1);
        let t2 = s2.skip(1);
        assert forall|p: Seq<char>| str_seq_contains(t1, p) <==> str_seq_contains(t2, p) by {
            if str_seq_contains(t1, p) {
                let j = choose|j: int| 0 <= j < t1.len() && t1[j]@ == p;
                assert(s1[j + 1]@ == p);
                assert(str_seq_contains(s1, p));
                assert(lex_lt(s1[0]@, s1[j + 1]@));
                let w = choose|w: int| 0 <= w < s2.len() && s2[w]@ == p;
                if w == 0 {
                    lemma_lex_irrefl(s1[0]@);
                }
                assert(t2[w - 1]@ == p);
                assert(str_seq_contains(t2, p));
            }
            if str_seq_contains(t2, p) {
                let j = choose|j: int| 0 <= j < t2.len() && t2[j]@ == p;
                assert(s2[j + 1]@ == p);
                assert(str_seq_contains(s2, p));
                assert(lex_lt(s2[0]@, s2[j + 1]@));
                let w = choose|w: int| 0 <= w < s1.len() && s1[w]@ == p;
                if w == 0 {
                    lemma_lex_irrefl(s2[0]@);
                }
                assert(t1[w - 1]@ == p);
                assert(str_seq_contains(t1, p));
            }
        }
        assert(strictly_sorted_strings(t1)) by {
            assert forall|x: int, y: int| 0 <= x < y < t1.len() implies lex_lt(
                t1[x]@,
                t1[y]@,
            ) by {
                assert(t1[x] == s1[x + 1]);
                assert(t1[y] == s1[y + 1]);
            }
        }
        assert(strictly_sorted_strings(t2)) by {
            assert forall|x: int, y: int| 0 <= x < y < t2.len() implies lex_lt(
                t2[x]@,
                t2[y]@,
            ) by {
                assert(t2[x] == s2[x + 1]);
                assert(t2[y] == s2[y + 1]);
            }
        }
        lemma_sorted_same_members_equal(t1, t2);
        assert(dir_views(s1) =~= dir_views(s2)) by {
            assert(dir_views(t1).len() == dir_views(t2).len());
            assert(s1.len() == s2.len());
            assert forall|x: int| 0 <= x < s1.len() implies dir_views(s1)[x] == dir_views(
                s2,
            )[x] by {
                if x > 0 {
                    assert(dir_views(t1)[x - 1] == dir_views(t2)[x - 1]);
                    assert(dir_views(t1)[x - 1] == t1[x - 1]@);
                    assert(t1[x - 1] == s1[x]);
                    assert(t2[x - 1] == s2[x]);
                }
            }
        }
    }
}

/// Two file sequences strictly sorted by path with the same members read
/// the same.
proof fn lemma_sorted_same_files_equal(s1: Seq<PackFile>, s2: Seq<PackFile>)
    requires
        strictly_sorted_files(s1),
        strictly_sorted_files(s2),
        forall|p: Seq<char>, d: Seq<u8>|
            file_seq_contains(s1, p, d) <==> file_seq_contains(s2, p, d),
    ensures
        file_views(s1) == file_views(s2),
    decreases s1.len(),
{
    if s1.len() == 0 {
        if s2.len() > 0 {
            assert(file_seq_contains(s2, s2[0].path@, s2[0].data@));
            assert(file_seq_contains(s1, s2[0].path@, s2[0].data@));
            assert(false);
        }
        assert(file_views(s1) =~= file_views(s2));
    } else if s2.len() == 0 {
        assert(file_seq_contains(s1, s1[0].path@, s1[0].data@));
        assert(file_seq_contains(s2, s1[0].path@, s1[0].data@));
        assert(false);
    } else {
        assert(file_seq_contains(s1, s1[0].path@, s1[0].data@));
        let k = choose|k: int|
            0 <= k < s2.len() && s2[k].path@ == s1[0].path@ && s2[k].data@ == s1[0].data@;
        assert(file_seq_contains(s2, s2[0].path@, s2[0].data@));
        let m = choose|m: int|
            0 <= m < s1.len() && s1[m].path@ == s2[0].path@ && s1[m].data@ == s2[0].data@;
        if k > 0 && m > 0 {
            assert(lex_lt(s2[0].path@, s2[k].path@));
            assert(lex_lt(s1[0].path@, s1[m].path@));
            crate::paths::lemma_lex_asym(s2[0].path@, s1[0].path@);
            assert(false);
        }
        assert(s1[0].path@ == s2[0].path@ && s1[0].data@ == s2[0].data@);
        let t1 = s1.skip(1);
        let t2 = s2.skip(1);
        assert forall|p: Seq<char>, d: Seq<u8>|
            file_seq_contains(t1, p, d) <==> file_seq_contains(t2, p, d) by {
            if file_seq_contains(t1, p, d) {
                let j = choose|j: int| 0 <= j < t1.len() && t1[j].path@ == p && t1[j].data@ == d;
                assert(s1[j + 1].path@ == p && s1[j + 1].data@ == d);
                assert(file_seq_contains(s1, p, d));
                assert(lex_lt(s1[0].path@, s1[j + 1].path@));
                let w = choose|w: int| 0 <= w < s2.len() && s2[w].path@ == p && s2[w].data@ == d;
                if w == 0 {
                    lemma_lex_irrefl(s1[0].path@);
                }
                assert(t2[w - 1].path@ == p && t2[w - 1].data@ == d);
                assert(file_seq_contains(t2, p, d));
            }
            if file_seq_contains(t2, p, d) {
                let j = choose|j: int| 0 <= j < t2.len() && t2[j].path@ == p && t2[j].data@ == d;
                assert(s2[j + 1].path@ == p && s2[j + 1].data@ == d);
                assert(file_seq_contains(s2, p, d));
                assert(lex_lt(s2[0].path@, s2[j + 1].path@));
                let w = choose|w: int| 0 <= w < s1.len() && s1[w].path@ == p && s1[w].data@ == d;
                if w == 0 {
                    lemma_lex_irrefl(s2[0].path@);
                }
                assert(t1[w - 1].path@ == p && t1[w - 1].data@ == d);
                assert(file_seq_contains(t1, p, d));
            }
        }
        assert(strictly_sorted_files(t1)) by {
            assert forall|x: int, y: int| 0 <= x < y < t1.len() implies lex_lt(
                t1[x].path@,
                t1[y].path@,
            ) by {
                assert(t1[x] == s1[x + 1]);
                assert(t1[y] == s1[y + 1]);
            }
        }
        assert(strictly_sorted_files(t2)) by {
            assert forall|x: int, y: int| 0 <= x < y < t2.len() implies lex_lt(
                t2[x].path@,
                t2[y].path@,
            ) by {
                assert(t2[x] == s2[x + 1]);
                assert(t2[y] == s2[y + 1]);
            }
        }
        lemma_sorted_same_files_equal(t1, t2);
        assert(file_views(s1) =~= file_views(s2)) by {
            assert(file_views(t1).len() == file_views(t2).len());
            assert(s1.len() == s2.len());
            assert forall|x: int| 0 <= x < s1.len() implies file_views(s1)[x] == file_views(
                s2,
            )[x] by {
                if x > 0 {
                    assert(file_views(t1)[x - 1] == file_views(t2)[x - 1]);
                    assert(file_views(t1)[x - 1] == (t1[x - 1].path@, t1[x - 1].data@));
                    assert(t1[x - 1] == s1[x]);
                    assert(t2[x - 1] == s2[x]);
                }
            }
        }
    }
}

/// What one traversal warrants, a traversal of the same entries warrants
/// too.
proof fn lemma_wanted_respects_sets(
    cfg: DirectoryConfig,
    root: Seq<char>,
    a1: Seq<WalkEntry>,
    b1: Seq<WalkEntry>,
    a2: Seq<WalkEntry>,
    b2: Seq<WalkEntry>,
)
    requires
        forall|e: WalkEntry| a1.contains(e) <==> a2.contains(e),
        forall|e: WalkEntry| b1.contains(e) <==> b2.contains(e),
    ensures
        forall|p: Seq<char>|
            plan_dir_wanted(cfg, root, a1, b1, p) ==> plan_dir_wanted(cfg, root, a2, b2, p),
        forall|p: Seq<char>, d: Seq<u8>|
            plan_file_wanted(cfg, root, a1, b1, p, d) ==> plan_file_wanted(
                cfg,
                root,
                a2,
                b2,
                p,
                d,
            ),
{
    assert forall|p: Seq<char>|
        plan_dir_wanted(cfg, root, a1, b1, p) implies plan_dir_wanted(cfg, root, a2, b2, p) by {
        if dir_from_primary(cfg, root, a1, p) {
            let k = choose|k: int|
                0 <= k < a1.len() && #[trigger] a1[k].is_dir && ipath_of(a1[k], root) == p
                    && primary_selected(cfg, p, true);
            assert(a1.contains(a1[k]));
            let m = choose|m: int| 0 <= m < a2.len() && a2[m] == a1[k];
            assert(a2[m].is_dir && ipath_of(a2[m], root) == p);
        } else if dir_from_rescue(cfg, root, b1, p) {
            let k = choose|k: int|
                0 <= k < b1.len() && #[trigger] b1[k].is_dir && ipath_of(b1[k], root) == p
                    && rescue_selected(cfg, p, true);
            assert(b1.contains(b1[k]));
            let m = choose|m: int| 0 <= m < b2.len() && b2[m] == b1[k];
            assert(b2[m].is_dir && ipath_of(b2[m], root) == p);
        } else {
            let k = choose|k: int|
                0 <= k < b1.len() && !(#[trigger] b1[k].is_dir) && rescue_selected(
                    cfg,
                    ipath_of(b1[k], root),
                    false,
                ) && is_ancestor(p, ipath_of(b1[k], root));
            assert(b1.contains(b1[k]));
            let m = choose|m: int| 0 <= m < b2.len() && b2[m] == b1[k];
            assert(!b2[m].is_dir && rescue_selected(cfg, ipath_of(b2[m], root), false)
                && is_ancestor(p, ipath_of(b2[m], root)));
        }
    }
    assert forall|p: Seq<char>, d: Seq<u8>|
        plan_file_wanted(cfg, root, a1, b1, p, d) implies plan_file_wanted(
        cfg,
        root,
        a2,
        b2,
        p,
        d,
    ) by {
        if file_from_primary(cfg, root, a1, p, d) {
            let k = choose|k: int|
                0 <= k < a1.len() && !(#[trigger] a1[k].is_dir) && ipath_of(a1[k], root) == p
                    && a1[k].data@ == d && primary_selected(cfg, p, false);
            assert(a1.contains(a1[k]));
            let m = choose|m: int| 0 <= m < a2.len() && a2[m] == a1[k];
            assert(!a2[m].is_dir && ipath_of(a2[m], root) == p && a2[m].data@ == d);
        } else {
            let k = choose|k: int|
                0 <= k < b1.len() && !(#[trigger] b1[k].is_dir) && ipath_of(b1[k], root) == p
                    && b1[k].data@ == d && rescue_selected(cfg, p, false);
            assert(b1.contains(b1[k]));
            let m = choose|m: int| 0 <= m < b2.len() && b2[m] == b1[k];
            assert(!b2[m].is_dir && ipath_of(b2[m], root) == p && b2[m].data@ == d);
        }
    }
}

/// Determinism of packing: two plans built over the same directory tree
/// with the same configuration hold exactly the same directories and the
/// same files with the same contents, in the same order — whatever order
/// either traversal enumerated the tree in. Applying equal plans writes
/// equal images.
pub proof fn lemma_pack_deterministic(
    plan1: PackPlan,
    plan2: PackPlan,
    cfg: DirectoryConfig,
    root: Seq<char>,
    a1: Seq<WalkEntry>,
    b1: Seq<WalkEntry>,
    a2: Seq<WalkEntry>,
    b2: Seq<WalkEntry>,
)
    requires
        plan_matches(plan1, cfg, root, a1, b1),
        plan_matches(plan2, cfg, root, a2, b2),
        forall|e: WalkEntry| a1.contains(e) <==> a2.contains(e),
        forall|e: WalkEntry| b1.contains(e) <==> b2.contains(e),
    ensures
        dir_views(plan1.dirs@) == dir_views(plan2.dirs@),
        file_views(plan1.files@) == file_views(plan2.files@),
{
    lemma_wanted_respects_sets(cfg, root, a1, b1, a2, b2);
    lemma_wanted_respects_sets(cfg, root, a2, b2, a1, b1);
    assert forall|p: Seq<char>|
        str_seq_contains(plan1.dirs@, p) <==> str_seq_contains(plan2.dirs@, p) by {
        assert(str_seq_contains(plan1.dirs@, p) <==> plan_dir_wanted(cfg, root, a1, b1, p));
        assert(str_seq_contains(plan2.dirs@, p) <==> plan_dir_wanted(cfg, root, a2, b2, p));
    }
    assert forall|p: Seq<char>, d: Seq<u8>|
        file_seq_contains(plan1.files@, p, d) <==> file_seq_contains(plan2.files@, p, d) by {
        assert(file_seq_contains(plan1.files@, p, d) <==> plan_file_wanted(
            cfg,
            root,
            a1,
            b1,
            p,
            d,
        ));
        assert(file_seq_contains(plan2.files@, p, d) <==> plan_file_wanted(
            cfg,
            root,
            a2,
            b2,
            p,
            d,
        ));
    }
    lemma_sorted_same_members_equal(plan1.dirs@, plan2.dirs@);
    lemma_sorted_same_files_equal(plan1.files@, plan2.files@);
}

/// Whitelist law: once any force-include pattern exists, a file enters
/// the plan only if some include pattern matches its relative path, or
/// matches its bare name (the rescued case) — even a file that no ignore
/// pattern ever targeted.
pub proof fn lemma_whitelist_law(
    plan: PackPlan,
    cfg: DirectoryConfig,
    root: Seq<char>,
    a: Seq<WalkEntry>,
    b: Seq<WalkEntry>,
    p: Seq<char>,
    d: Seq<u8>,
)
    requires
        plan_matches(plan, cfg, root, a, b),
        cfg.glob_includes@.len() > 0,
        file_seq_contains(plan.files@, p, d),
    ensures
        override_whitelisted(cfg, p, false) || matches_any(
            cfg.glob_includes@,
            spec_basename(p),
            false,
        ),
{
    assert(plan_file_wanted(cfg, root, a, b, p, d));
}

/// Exclusion law: with no force-include patterns, a path the override
/// layer ignores, or one below an ignored directory, never appears in
/// the plan, neither as a directory nor as a file.
pub proof fn lemma_ignored_never_packed(
    plan: PackPlan,
    cfg: DirectoryConfig,
    root: Seq<char>,
    a: Seq<WalkEntry>,
    b: Seq<WalkEntry>,
    p: Seq<char>,
)
    requires
        plan_matches(plan, cfg, root, a, b),
        cfg.glob_includes@.len() == 0,
    ensures
        override_ignored(cfg, p, true) || ancestor_pruned(cfg, p) ==> !str_seq_contains(
            plan.dirs@,
            p,
        ),
        override_ignored(cfg, p, false) || ancestor_pruned(cfg, p) ==> forall|d: Seq<u8>|
            !file_seq_contains(plan.files@, p, d),
{
    if override_ignored(cfg, p, true) || ancestor_pruned(cfg, p) {
        if str_seq_contains(plan.dirs@, p) {
            assert(plan_dir_wanted(cfg, root, a, b, p));
            if dir_from_rescue(cfg, root, b, p) {
                let k = choose|k: int|
                    0 <= k < b.len() && #[trigger] b[k].is_dir && ipath_of(b[k], root) == p
                        && rescue_selected(cfg, p, true);
                assert(false);
            } else if dir_from_ancestors(cfg, root, b, p) {
                let k = choose|k: int|
                    0 <= k < b.len() && !(#[trigger] b[k].is_dir) && rescue_selected(
                        cfg,
                        ipath_of(b[k], root),
                        false,
                    ) && is_ancestor(p, ipath_of(b[k], root));
                assert(false);
            } else {
                assert(primary_selected(cfg, p, true));
                assert(false);
            }
        }
    }
    if override_ignored(cfg, p, false) || ancestor_pruned(cfg, p) {
        assert forall|d: Seq<u8>| !file_seq_contains(plan.files@, p, d) by {
            if file_seq_contains(plan.files@, p, d) {
                assert(plan_file_wanted(cfg, root, a, b, p, d));
                if file_from_rescue(cfg, root, b, p, d) {
                    let k = choose|k: int|
                        0 <= k < b.len() && !(#[trigger] b[k].is_dir) && ipath_of(b[k], root) == p
                            && b[k].data@ == d && rescue_selected(cfg, p, false);
                    assert(false);
                } else {
                    assert(primary_selected(cfg, p, false));
                    assert(false);
                }
            }
        }
    }
}

/// Rescue reachability law: a file the rescue traversal contributes is
/// reachable in the image — every ancestor directory of its image path
/// stands in the plan's directory set, even when the whole parent chain
/// was pruned from the primary traversal.
pub proof fn lemma_rescue_reachable(
    plan: PackPlan,
    cfg: DirectoryConfig,
    root: Seq<char>,
    a: Seq<WalkEntry>,
    b: Seq<WalkEntry>,
    p: Seq<char>,
    d: Seq<u8>,
    q: Seq<char>,
)
    requires
        plan_matches(plan, cfg, root, a, b),
        file_from_rescue(cfg, root, b, p, d),
        is_ancestor(q, p),
    ensures
        str_seq_contains(plan.dirs@, q),
{
    let k = choose|k: int|
        0 <= k < b.len() && !(#[trigger] b[k].is_dir) && ipath_of(b[k], root) == p && b[k].data@
            == d && rescue_selected(cfg, p, false);
    assert(!b[k].is_dir && rescue_selected(cfg, ipath_of(b[k], root), false) && is_ancestor(
        q,
        ipath_of(b[k], root),
    ));
    assert(dir_from_ancestors(cfg, root, b, q));
    assert(plan_dir_wanted(cfg, root, a, b, q));
}

} // verus!
