//! Resolution of entry points and of the runtime interpreter.
//!
//! Every supervised child is a script run by a bundled or system
//! interpreter.  The driver layer reports which candidate files exist; the
//! preference — a packaged location always wins over a development-tree
//! fallback — and the candidate locations themselves are decided here.

use vstd::prelude::*;
use vstd::string::*;
use crate::paths::{join_path, join_spec};
use crate::sidecar::ProcName;
use crate::text::trimmed;

verus! {

/// The packaged location is preferred over the development-tree fallback.
pub fn pick_location(bundled: Option<String>, dev: Option<String>) -> (r: Option<String>)
    ensures
        r == (if bundled is Some {
            bundled
        } else {
            dev
        }),
{
    match bundled {
        Some(b) => Some(b),
        None => dev,
    }
}

/// A usable interpreter: the bundled one if it exists, else the one found
/// on the host's search path.
pub fn find_node(bundled: Option<String>, system: Option<String>) -> (r: Option<String>)
    ensures
        r == (if bundled is Some {
            bundled
        } else {
            system
        }),
{
    match bundled {
        Some(b) => Some(b),
        None => system,
    }
}

/// The relative location of a supervised process's entry point.
pub open spec fn entry_rel_spec(which: ProcName) -> Seq<char> {
    match which {
        ProcName::Engine => "soul-engine/src/index.js"@,
        ProcName::Chain => "soul-chain/src/index.js"@,
    }
}

/// The two candidate locations of a supervised process's entry point: the
/// packaged one under the resource directory, if one is known, and the
/// development-tree fallback under the controlled root.
pub fn entry_candidates(which: ProcName, resource_dir: Option<&str>, soul_path: &str) -> (r: (
    Option<String>,
    String,
))
    ensures
        r.0 matches Some(b) ==> resource_dir matches Some(d) && b@ == join_spec(
            d@,
            entry_rel_spec(which),
        ),
        r.0 is Some <==> resource_dir is Some,
        r.1@ == join_spec(join_spec(soul_path@, "seelen-protokoll"@), entry_rel_spec(which)),
{
    let rel: &str = match which {
        ProcName::Engine => "soul-engine/src/index.js",
        ProcName::Chain => "soul-chain/src/index.js",
    };
    let bundled = match resource_dir {
        Some(d) => Some(join_path(d, rel)),
        None => None,
    };
    let dev_base = join_path(soul_path, "seelen-protokoll");
    let dev = join_path(dev_base.as_str(), rel);
    (bundled, dev)
}

/// The two candidate locations of the founding server script.
pub fn server_js_candidates(resource_dir: Option<&str>, soul_path: &str) -> (r: (
    Option<String>,
    String,
))
    ensures
        r.0 matches Some(b) ==> resource_dir matches Some(d) && b@ == join_spec(
            d@,
            "soul-engine/src/founding-server.js"@,
        ),
        r.0 is Some <==> resource_dir is Some,
        r.1@ == join_spec(
            join_spec(soul_path@, "seelen-protokoll"@),
            "soul-engine/src/founding-server.js"@,
        ),
{
    let bundled = match resource_dir {
        Some(d) => Some(join_path(d, "soul-engine/src/founding-server.js")),
        None => None,
    };
    let dev_base = join_path(soul_path, "seelen-protokoll");
    let dev = join_path(dev_base.as_str(), "soul-engine/src/founding-server.js");
    (bundled, dev)
}

/// The bundled interpreter's location under the resource directory.
pub fn node_candidate(resource_dir: &str) -> (r: String)
    ensures
        r@ == join_spec(resource_dir@, "node/bin/node"@),
{
    join_path(resource_dir, "node/bin/node")
}

/// The repository holding the state history: the controlled root itself if
/// it is a repository, else its development tree, else none.
pub fn git_root_choice(soul_path: &str, sp_has_git: bool, proto_has_git: bool) -> (r: Option<
    String,
>)
    ensures
        sp_has_git ==> (r matches Some(p) && p@ == soul_path@),
        !sp_has_git && proto_has_git ==> (r matches Some(p) && p@ == join_spec(
            soul_path@,
            "seelen-protokoll"@,
        )),
        !sp_has_git && !proto_has_git ==> r is None,
{
    if sp_has_git {
        Some(String::from_str(soul_path))
    } else if proto_has_git {
        Some(join_path(soul_path, "seelen-protokoll"))
    } else {
        None
    }
}

/// The interpreter location reported by the host's lookup tool: its trimmed
/// output, when the lookup succeeded and printed anything.
pub fn parse_which_output(success: bool, stdout: &str) -> (r: Option<String>)
    ensures
        match r {
            Some(p) => success && p@ == trimmed(stdout@) && trimmed(stdout@).len() > 0,
            None => !success || trimmed(stdout@).len() == 0,
        },
{
    if !success {
        return None;
    }
    let t = crate::text::trim_str(stdout);
    if t.is_empty() {
        None
    } else {
        Some(String::from_str(t))
    }
}

/// The interpreter's version string: its trimmed output, when the version
/// query succeeded.
pub fn parse_version_output(success: bool, stdout: &str) -> (r: Option<String>)
    ensures
        match r {
            Some(v) => success && v@ == trimmed(stdout@),
            None => !success,
        },
{
    if success {
        Some(String::from_str(crate::text::trim_str(stdout)))
    } else {
        None
    }
}

} // verus!
