//! Path arithmetic and the security checks on user-supplied paths.
//!
//! The file system itself (existence, canonicalisation) is the driver
//! layer's business; these functions decide everything that can be decided
//! from the path strings alone.

use vstd::prelude::*;
use vstd::string::*;
use crate::text::{contains_seq, contains_str, starts_with, str_eq};

verus! {

/// Joining `name` onto `base` as paths: an absolute `name` replaces `base`,
/// and exactly one separator stands between the two parts.
pub open spec fn join_spec(base: Seq<char>, name: Seq<char>) -> Seq<char> {
    if name.len() > 0 && name[0] == '/' {
        name
    } else if base.len() > 0 && base[base.len() - 1] == '/' {
        base + name
    } else {
        base + "/"@ + name
    }
}

/// Join `name` onto `base`, as `join_spec` describes.
pub fn join_path(base: &str, name: &str) -> (r: String)
    ensures
        r@ == join_spec(base@, name@),
{
    let nlen = name.unicode_len();
    if nlen > 0 && name.get_char(0) == '/' {
        return String::from_str(name);
    }
    let blen = base.unicode_len();
    let mut r = String::from_str(base);
    if !(blen > 0 && base.get_char(blen - 1) == '/') {
        r.append("/");
    }
    r.append(name);
    r
}

/// A name is traversal-free when it has no `..` anywhere.
pub fn is_traversal_free(name: &str) -> (r: bool)
    ensures
        r == !contains_seq(name@, ".."@),
{
    !contains_str(name, "..")
}

pub open spec fn is_absolute(p: Seq<char>) -> bool {
    p.len() > 0 && p[0] == '/'
}

/// The system directories that may never serve as the controlled root.
pub open spec fn is_danger_dir(p: Seq<char>) -> bool {
    ||| p == "/"@
    ||| p == "/etc"@
    ||| p == "/usr"@
    ||| p == "/bin"@
    ||| p == "/sbin"@
    ||| p == "/var"@
    ||| p == "/tmp"@
    ||| p == "/System"@
    ||| p == "/Library"@
}

/// Why a proposed controlled root was rejected.
#[derive(Clone, Copy, Debug, PartialEq, Eq, Structural)]
pub enum PathError {
    /// The path is not absolute.
    NotAbsolute,
    /// The path is one of the guarded system directories.
    SystemDir,
}

/// Admit or reject a proposed controlled root: it must be absolute and no
/// guarded system directory.  That it exists and is a directory is the
/// driver layer's check.
pub fn validate_soul_path(path: &str) -> (r: Result<(), PathError>)
    ensures
        r is Ok <==> (is_absolute(path@) && !is_danger_dir(path@)),
        r == Err::<(), PathError>(PathError::NotAbsolute) <==> !is_absolute(path@),
        r == Err::<(), PathError>(PathError::SystemDir) <==> (is_absolute(path@) && is_danger_dir(
            path@,
        )),
{
    let len = path.unicode_len();
    if !(len > 0 && path.get_char(0) == '/') {
        return Err(PathError::NotAbsolute);
    }
    if str_eq(path, "/") || str_eq(path, "/etc") || str_eq(path, "/usr") || str_eq(path, "/bin")
        || str_eq(path, "/sbin") || str_eq(path, "/var") || str_eq(path, "/tmp") || str_eq(
        path,
        "/System",
    ) || str_eq(path, "/Library") {
        return Err(PathError::SystemDir);
    }
    Ok(())
}

/// `target` lies within `root`, compared component-wise on the path
/// strings: either the two are equal or `target` continues `root` at a
/// separator.
pub open spec fn within_spec(root: Seq<char>, target: Seq<char>) -> bool {
    target == root || (starts_with(target, root) && (
    (root.len() > 0 && root[root.len() - 1] == '/') || (target.len() > root.len()
        && target[root.len() as int] == '/')))
}

/// Does `target` lie within `root`, as `within_spec` describes?
pub fn path_within(root: &str, target: &str) -> (r: bool)
    ensures
        r == within_spec(root@, target@),
{
    if str_eq(target, root) {
        return true;
    }
    if !crate::text::starts_with_str(target, root) {
        return false;
    }
    let rlen = root.unicode_len();
    let tlen = target.unicode_len();
    if rlen > 0 && root.get_char(rlen - 1) == '/' {
        return true;
    }
    tlen > rlen && target.get_char(rlen) == '/'
}

/// The directory skeleton of a controlled root, relative to it, in creation
/// order: the root itself, then the soul's memory, relationship and log
/// directories in both their German and English spellings.
pub fn soul_directories() -> (r: Vec<&'static str>)
    ensures
        r.deep_view() == soul_directories_spec(),
{
    let r: Vec<&'static str> = vec![
        "",
        "seele",
        "seele/beziehungen",
        "erinnerungen",
        "erinnerungen/kern",
        "erinnerungen/episodisch",
        "erinnerungen/semantisch",
        "erinnerungen/emotional",
        "erinnerungen/archiv",
        "heartbeat",
        "zustandslog",
        "memory",
        "connections",
        "soul",
        "soul/relationships",
        "memories",
        "memories/core",
        "memories/episodic",
        "memories/semantic",
        "memories/emotional",
        "memories/archive",
        "statelog",
    ];
    proof {
        assert(r.deep_view() =~= soul_directories_spec());
    }
    r
}

pub open spec fn soul_directories_spec() -> Seq<Seq<char>> {
    seq![
        ""@,
        "seele"@,
        "seele/beziehungen"@,
        "erinnerungen"@,
        "erinnerungen/kern"@,
        "erinnerungen/episodisch"@,
        "erinnerungen/semantisch"@,
        "erinnerungen/emotional"@,
        "erinnerungen/archiv"@,
        "heartbeat"@,
        "zustandslog"@,
        "memory"@,
        "connections"@,
        "soul"@,
        "soul/relationships"@,
        "memories"@,
        "memories/core"@,
        "memories/episodic"@,
        "memories/semantic"@,
        "memories/emotional"@,
        "memories/archive"@,
        "statelog"@,
    ]
}

/// Only web URLs may be opened in the embedded browser.
pub fn scheme_allowed(scheme: &str) -> (r: bool)
    ensures
        r == (scheme@ == "http"@ || scheme@ == "https"@),
{
    str_eq(scheme, "http") || str_eq(scheme, "https")
}

} // verus!
