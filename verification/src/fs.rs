//! Where packages lie in the file system.
//!
//! Paths are texts whose parts are set apart by `/`.

use vstd::prelude::*;
use vstd::string::StringExecFns;

use crate::ident::ReleaseIdent;
use crate::text::chars_of;

verus! {

/// The root of the file system.
pub const FS_ROOT_PATH: &'static str = "/";

/// Where the packages lie, seen from the root of the file system.
pub const PKG_PATH: &'static str = "hab/pkgs";

/// A release directory with this beginning holds an install that is not
/// finished.
pub const INSTALL_TMP_PREFIX: &'static str = ".hab-pkg-install";

/// The path of `entry` below `base`. Below the empty path an entry lies
/// under its own name.
pub open spec fn join_path_spec(base: Seq<char>, entry: Seq<char>) -> Seq<char> {
    if base.len() == 0 {
        entry
    } else if base.last() == '/' {
        base + entry
    } else {
        base + "/"@ + entry
    }
}

/// The root of the file system that a caller named, or `/`.
pub open spec fn fs_root_of(fs_root_path: Option<&str>) -> Seq<char> {
    match fs_root_path {
        Some(path) => path@,
        None => FS_ROOT_PATH@,
    }
}

/// The directory that holds the packages.
pub open spec fn pkg_root_path_spec(fs_root: Seq<char>) -> Seq<char> {
    join_path_spec(fs_root, PKG_PATH@)
}

/// The directory that holds the release with the given parts.
pub open spec fn pkg_install_path_spec(parts: Seq<Seq<char>>, fs_root: Seq<char>) -> Seq<char> {
    join_path_spec(
        join_path_spec(
            join_path_spec(join_path_spec(pkg_root_path_spec(fs_root), parts[0]), parts[1]),
            parts[2],
        ),
        parts[3],
    )
}

/// The path of `entry` below `base`.
pub fn join_path(base: &str, entry: &str) -> (r: String)
    ensures
        r@ == join_path_spec(base@, entry@),
{
    let v = chars_of(base);
    if v.len() == 0 {
        return entry.to_owned();
    }
    let mut path = base.to_owned();
    if v[v.len() - 1] != '/' {
        path.append("/");
    }
    path.append(entry);
    path
}

/// The directory that holds the packages, below the root of the file system
/// that the caller names, or below `/`.
pub fn pkg_root_path(fs_root_path: Option<&str>) -> (r: String)
    ensures
        r@ == pkg_root_path_spec(fs_root_of(fs_root_path)),
{
    match fs_root_path {
        Some(path) => join_path(path, PKG_PATH),
        None => join_path(FS_ROOT_PATH, PKG_PATH),
    }
}

/// The directory that holds a release.
pub fn pkg_install_path(ident: &ReleaseIdent, fs_root_path: Option<&str>) -> (r: String)
    ensures
        r@ == pkg_install_path_spec(ident@, fs_root_of(fs_root_path)),
{
    let root = pkg_root_path(fs_root_path);
    let origin = join_path(root.as_str(), ident.origin().as_str());
    let name = join_path(origin.as_str(), ident.name().as_str());
    let version = join_path(name.as_str(), ident.version().as_str());
    join_path(version.as_str(), ident.release().as_str())
}

} // verus!
