//! Where the application's shipped resources are: the bundle root chosen at
//! start-up, and its subdirectories with a fallback to the source tree.
use vstd::prelude::*;
use crate::paths::{join, join_spec};

verus! {

/// The resource root: the one set at start-up, else the resources next to
/// the executable, else the source tree the application was built from.
pub fn resource_root(initialized: Option<String>, exe_resources: Option<String>, source_root: &str) -> (r:
    String)
    ensures
        r@ == match initialized {
            Some(i) => i@,
            None => match exe_resources {
                Some(e) => e@,
                None => source_root@,
            },
        },
{
    match initialized {
        Some(i) => i,
        None => match exe_resources {
            Some(e) => e,
            None => crate::text::owned(source_root),
        },
    }
}

/// A subdirectory of the resource root when it is a directory there
/// (`bundled_is_dir`), else the one in the source tree.
pub open spec fn subdir_spec(root: Seq<char>, source_root: Seq<char>, name: Seq<char>, bundled_is_dir: bool) -> Seq<
    char,
> {
    if bundled_is_dir {
        join_spec(root, name)
    } else {
        join_spec(source_root, name)
    }
}

fn resolve_subdir(root: &str, source_root: &str, name: &str, bundled_is_dir: bool) -> (r: String)
    ensures
        r@ == subdir_spec(root@, source_root@, name@, bundled_is_dir),
{
    if bundled_is_dir {
        join(root, name)
    } else {
        join(source_root, name)
    }
}

/// The `presets` directory; `bundled_is_dir` tells whether `<root>/presets`
/// is a directory.
pub fn presets_dir(root: &str, source_root: &str, bundled_is_dir: bool) -> (r: String)
    ensures
        r@ == subdir_spec(root@, source_root@, "presets"@, bundled_is_dir),
{
    resolve_subdir(root, source_root, "presets", bundled_is_dir)
}

/// The `games` directory, as `presets_dir`.
pub fn games_dir(root: &str, source_root: &str, bundled_is_dir: bool) -> (r: String)
    ensures
        r@ == subdir_spec(root@, source_root@, "games"@, bundled_is_dir),
{
    resolve_subdir(root, source_root, "games", bundled_is_dir)
}

/// The `catalog` directory, as `presets_dir`.
pub fn catalog_dir(root: &str, source_root: &str, bundled_is_dir: bool) -> (r: String)
    ensures
        r@ == subdir_spec(root@, source_root@, "catalog"@, bundled_is_dir),
{
    resolve_subdir(root, source_root, "catalog", bundled_is_dir)
}

/// The development copy of the shipped preset catalog in the source tree.
pub open spec fn dev_remote_presets(source_root: Seq<char>) -> Seq<char> {
    join_spec(join_spec(join_spec(source_root, ".."@), "vps"@), "public"@)
}

/// The shipped author preset catalog: `<root>/bundled-remote-presets` when it
/// holds `catalog.json`, else the development copy when that one does, else
/// the bundled location.
pub fn bundled_remote_presets_dir(
    root: &str,
    source_root: &str,
    bundled_has_catalog: bool,
    dev_has_catalog: bool,
) -> (r: String)
    ensures
        r@ == if !bundled_has_catalog && dev_has_catalog {
            dev_remote_presets(source_root@)
        } else {
            join_spec(root@, "bundled-remote-presets"@)
        },
{
    let bundled = join(root, "bundled-remote-presets");
    if bundled_has_catalog {
        return bundled;
    }
    if dev_has_catalog {
        let a = join(source_root, "..");
        let b = join(a.as_str(), "vps");
        return join(b.as_str(), "public");
    }
    bundled
}

} // verus!
