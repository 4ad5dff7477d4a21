//! An installed package: how it is found among the releases of a host, and
//! what its metafiles say.

use core::cmp::Ordering;
use vstd::prelude::*;
use vstd::std_specs::cmp::PartialEqSpecImpl;

use crate::each::{
    collect, gather, lemma_collect_fails, lemma_collect_next, lemma_gather_fails,
    lemma_gather_next, model,
};
use crate::error::{Error, ErrorView};
use crate::fs::{
    fs_root_of, pkg_install_path, pkg_install_path_spec, pkg_root_path, pkg_root_path_spec,
    FS_ROOT_PATH,
};
use crate::ident::{satisfies_spec, Ident, ReleaseIdent};
use crate::keyvalue::{pair_views, pairs_map, KeyValueMap};
use crate::metadata::{
    bind_map_of, binds_of, deps_of, exposes_of, key_value_file_of, parse_bind_map, parse_binds,
    parse_deps, parse_exposes, parse_key_value_file, parse_pkg_type, parse_single, pkg_type_of,
    single_of, Bind, BindMapping, MetaFile, PackageType,
};
use crate::order::{
    at_most, lemma_release_order_chained, lemma_release_order_reversed, partial_order,
    total_order,
};
use crate::version::numeric;
use crate::paths::{
    dedup, entries_of, join_paths, join_paths_spec, own_entries, own_paths, split_paths,
    without_duplicates,
};
use crate::store::{found, PackageStore};
use crate::target::{parse_target, path_separator_of, PackageTarget};
use crate::text::views;

verus! {

/// A package that was found on a host.
#[derive(Debug, Eq)]
pub struct PackageInstall {
    /// The release that was found.
    pub ident: ReleaseIdent,
    /// The root of the file system in which it was looked for.
    pub fs_root_path: String,
    /// The directory that holds the packages.
    pub package_root_path: String,
    /// The directory that holds the release.
    pub installed_path: String,
}

/// An installed package, with texts as what they hold.
pub struct InstallView {
    pub ident: Seq<Seq<char>>,
    pub fs_root_path: Seq<char>,
    pub package_root_path: Seq<char>,
    pub installed_path: Seq<char>,
}

impl View for PackageInstall {
    type V = InstallView;

    open spec fn view(&self) -> InstallView {
        InstallView {
            ident: self.ident@,
            fs_root_path: self.fs_root_path@,
            package_root_path: self.package_root_path@,
            installed_path: self.installed_path@,
        }
    }
}

impl DeepView for PackageInstall {
    type V = InstallView;

    open spec fn deep_view(&self) -> InstallView {
        self@
    }
}

impl Clone for PackageInstall {
    fn clone(&self) -> (r: Self)
        ensures
            r@ == self@,
    {
        PackageInstall {
            ident: self.ident.clone(),
            fs_root_path: self.fs_root_path.clone(),
            package_root_path: self.package_root_path.clone(),
            installed_path: self.installed_path.clone(),
        }
    }
}

impl PartialEq for PackageInstall {
    fn eq(&self, other: &Self) -> (r: bool) {
        self.ident == other.ident && self.fs_root_path == other.fs_root_path
            && self.package_root_path == other.package_root_path && self.installed_path
            == other.installed_path
    }
}

impl PartialEqSpecImpl for PackageInstall {
    open spec fn obeys_eq_spec() -> bool {
        true
    }

    open spec fn eq_spec(&self, other: &Self) -> bool {
        self@ == other@
    }
}

/// The install of a release in the file system below `fs_root`.
pub open spec fn install_of(ident: Seq<Seq<char>>, fs_root: Seq<char>) -> InstallView {
    InstallView {
        ident,
        fs_root_path: fs_root,
        package_root_path: pkg_root_path_spec(fs_root),
        installed_path: pkg_install_path_spec(ident, fs_root),
    }
}

/// Whether one of the candidates answers the request.
pub open spec fn answers(candidates: Seq<Seq<Seq<char>>>, query: Seq<Seq<char>>) -> bool {
    exists|i: int| 0 <= i < candidates.len() && satisfies_spec(#[trigger] candidates[i], query)
}

/// The newest of the candidates that answer the request: going through the
/// candidates in their order, the first that answers is kept until one that
/// answers is greater in the partial order.
pub open spec fn latest(candidates: Seq<Seq<Seq<char>>>, query: Seq<Seq<char>>) -> Option<
    Seq<Seq<char>>,
>
    decreases candidates.len(),
{
    if candidates.len() == 0 {
        None
    } else {
        let kept = latest(candidates.drop_last(), query);
        let next = candidates.last();
        if !satisfies_spec(next, query) {
            kept
        } else {
            match kept {
                None => Some(next),
                Some(winner) => if partial_order(winner, next) == Some(Ordering::Less) {
                    Some(next)
                } else {
                    Some(winner)
                },
            }
        }
    }
}

/// The release that a request stands for among the candidates. A request
/// that names a release stands for that release, if it is a candidate; any
/// other request stands for the newest candidate that answers it.
pub open spec fn resolve(candidates: Seq<Seq<Seq<char>>>, query: Seq<Seq<char>>) -> Option<
    Seq<Seq<char>>,
> {
    if query.len() == 4 {
        if answers(candidates, query) {
            Some(query)
        } else {
            None
        }
    } else {
        latest(candidates, query)
    }
}

/// The install that a request stands for on a host.
pub open spec fn load_spec(store: PackageStore, query: Seq<Seq<char>>, fs_root: Seq<char>) -> Result<
    InstallView,
    ErrorView,
> {
    match resolve(store.candidates(), query) {
        Some(ident) => Ok(install_of(ident, fs_root)),
        None => Err(ErrorView::PackageNotFound(query)),
    }
}

/// The least that a request for a minimum asks for: a request without a
/// version asks for version `0` and release `0`.
pub open spec fn floor_of(query: Seq<Seq<char>>) -> Seq<Seq<char>> {
    if query.len() < 3 {
        seq![query[0], query[1], "0"@, "0"@]
    } else {
        query
    }
}

/// The newest of the candidates with the origin and the name of `floor`
/// that are no less than `floor` in the total order: going through the
/// candidates in their order, the first that is no less than `floor` is
/// kept until one is greater.
pub open spec fn latest_at_least(candidates: Seq<Seq<Seq<char>>>, floor: Seq<Seq<char>>) -> Option<
    Seq<Seq<char>>,
>
    decreases candidates.len(),
{
    if candidates.len() == 0 {
        None
    } else {
        let kept = latest_at_least(candidates.drop_last(), floor);
        let next = candidates.last();
        if next[0] != floor[0] || next[1] != floor[1] {
            kept
        } else {
            match kept {
                None => if total_order(next, floor) == Ordering::Less {
                    None
                } else {
                    Some(next)
                },
                Some(winner) => if total_order(winner, next) == Ordering::Less {
                    Some(next)
                } else {
                    Some(winner)
                },
            }
        }
    }
}

/// The install that a request for a minimum stands for on a host.
pub open spec fn load_at_least_spec(
    store: PackageStore,
    query: Seq<Seq<char>>,
    fs_root: Seq<char>,
) -> Result<InstallView, ErrorView> {
    match latest_at_least(store.candidates(), floor_of(query)) {
        Some(ident) => Ok(install_of(ident, fs_root)),
        None => Err(ErrorView::PackageNotFound(query)),
    }
}

fn install_at(ident: ReleaseIdent, fs_root_path: Option<&str>) -> (r: PackageInstall)
    ensures
        r@ == install_of(ident@, fs_root_of(fs_root_path)),
{
    let installed_path = pkg_install_path(&ident, fs_root_path);
    let package_root_path = pkg_root_path(fs_root_path);
    let fs_root_path = match fs_root_path {
        Some(path) => path.to_owned(),
        None => FS_ROOT_PATH.to_owned(),
    };
    PackageInstall { ident, fs_root_path, package_root_path, installed_path }
}

/// Whether one of the candidates answers the request.
fn any_answers(candidates: &Vec<ReleaseIdent>, query: &Ident) -> (r: bool)
    ensures
        r == answers(candidates.deep_view(), query@),
{
    let mut i: usize = 0;
    while i < candidates.len()
        invariant
            i <= candidates.len(),
            forall|k: int|
                0 <= k < i ==> !satisfies_spec(#[trigger] candidates.deep_view()[k], query@),
        decreases candidates.len() - i,
    {
        if candidates[i].satisfies(query) {
            proof {
                assert(satisfies_spec(candidates.deep_view()[i as int], query@));
            }
            return true;
        }
        i += 1;
    }
    false
}

/// The newest of the candidates that answer the request.
fn find_latest(candidates: &Vec<ReleaseIdent>, query: &Ident) -> (r: Option<ReleaseIdent>)
    ensures
        r.deep_view() == latest(candidates.deep_view(), query@),
{
    let ghost all = candidates.deep_view();
    let mut winner: Option<ReleaseIdent> = None;
    let mut i: usize = 0;
    let ghost mut seen: int = 0;
    proof {
        assert(all.take(0) =~= Seq::empty());
    }
    while i < candidates.len()
        invariant
            seen == i,
            i <= candidates.len(),
            all == candidates.deep_view(),
            winner.deep_view() == latest(all.take(seen), query@),
            winner matches Some(w) ==> w@[1] == query@[1],
        decreases candidates.len() - i,
    {
        let next = &candidates[i];
        proof {
            assert(all.take(seen + 1).drop_last() =~= all.take(seen));
            assert(all.take(seen + 1).last() == next@);
        }
        if next.satisfies(query) {
            let replace = match &winner {
                None => true,
                Some(kept) => match kept.partial_cmp(next) {
                    Some(Ordering::Less) => true,
                    _ => false,
                },
            };
            if replace {
                winner = Some(next.clone());
            }
        }
        i += 1;
        proof {
            seen = seen + 1;
        }
    }
    proof {
        assert(all.take(seen) =~= all);
    }
    winner
}

/// The newest of the candidates that are no less than `floor`.
fn find_latest_at_least(candidates: &Vec<ReleaseIdent>, floor: &Ident) -> (r: Option<
    ReleaseIdent,
>)
    ensures
        r.deep_view() == latest_at_least(candidates.deep_view(), floor@),
{
    let ghost all = candidates.deep_view();
    let mut winner: Option<Ident> = None;
    let mut found: Option<ReleaseIdent> = None;
    let mut i: usize = 0;
    let ghost mut seen: int = 0;
    proof {
        assert(all.take(0) =~= Seq::empty());
    }
    while i < candidates.len()
        invariant
            seen == i,
            i <= candidates.len(),
            all == candidates.deep_view(),
            found.deep_view() == latest_at_least(all.take(seen), floor@),
            winner.deep_view() == found.deep_view(),
        decreases candidates.len() - i,
    {
        proof {
            assert(all.take(seen + 1).drop_last() =~= all.take(seen));
            assert(all.take(seen + 1).last() == candidates[seen]@);
        }
        if *candidates[i].origin() == *floor.origin() && *candidates[i].name() == *floor.name() {
            let next = Ident::Release(candidates[i].clone());
            let replace = match &winner {
                None => match next.cmp(floor) {
                    Ordering::Less => false,
                    _ => true,
                },
                Some(kept) => match kept.cmp(&next) {
                    Ordering::Less => true,
                    _ => false,
                },
            };
            if replace {
                found = Some(candidates[i].clone());
                winner = Some(next);
            }
        }
        i += 1;
        proof {
            seen = seen + 1;
        }
    }
    proof {
        assert(all.take(seen) =~= all);
    }
    found
}

impl PackageInstall {
    /// Finds the installed package that a request stands for.
    ///
    /// A request that names a release is met by that release, if it is
    /// installed. A request without a release, or without a version too, is
    /// met by the newest installed release that answers it. Only releases
    /// that count as installed on the host are looked at: those built for
    /// the target that the host runs. `fs_root_path` is the root of the
    /// file system that the store was read from, `/` where none is given.
    pub fn load(ident: &Ident, fs_root_path: Option<&str>, store: &PackageStore) -> (r: Result<
        PackageInstall,
        Error,
    >)
        ensures
            model(r) == load_spec(*store, ident@, fs_root_of(fs_root_path)),
    {
        let candidates = store.package_list();
        let resolved = match ident {
            Ident::Release(release) => {
                if any_answers(&candidates, ident) {
                    Some(release.clone())
                } else {
                    None
                }
            },
            _ => find_latest(&candidates, ident),
        };
        match resolved {
            Some(release) => Ok(install_at(release, fs_root_path)),
            None => Err(Error::PackageNotFound(ident.clone())),
        }
    }

    /// Finds the newest installed package that is no older than a request
    /// asks for.
    ///
    /// The package has the origin and the name of the request, and is no
    /// less than the request in the total order of identifiers. A request
    /// without a version is met by any version.
    pub fn load_at_least(ident: &Ident, fs_root_path: Option<&str>, store: &PackageStore) -> (r:
        Result<PackageInstall, Error>)
        ensures
            model(r) == load_at_least_spec(*store, ident@, fs_root_of(fs_root_path)),
    {
        proof {
            reveal_strlit("0");
            assert("0"@.len() == 1 && "0"@[0] == '0');
            assert(crate::ident::valid_segment("0"@));
        }
        let floor = match ident.version() {
            None => {
                let zero = match crate::ident::Version::new("0") {
                    Ok(zero) => zero,
                    Err(_) => {
                        return Err(Error::PackageNotFound(ident.clone()));
                    },
                };
                let none = match crate::ident::Release::new("0") {
                    Ok(none) => none,
                    Err(_) => {
                        return Err(Error::PackageNotFound(ident.clone()));
                    },
                };
                Ident::Release(
                    ReleaseIdent::new(ident.origin().clone(), ident.name().clone(), zero, none),
                )
            },
            Some(_) => ident.clone(),
        };
        let candidates = store.package_list();
        match find_latest_at_least(&candidates, &floor) {
            Some(release) => Ok(install_at(release, fs_root_path)),
            None => Err(Error::PackageNotFound(ident.clone())),
        }
    }

    pub fn new_from_parts(
        ident: ReleaseIdent,
        fs_root_path: String,
        package_root_path: String,
        installed_path: String,
    ) -> (r: PackageInstall)
        ensures
            r.ident == ident,
            r.fs_root_path == fs_root_path,
            r.package_root_path == package_root_path,
            r.installed_path == installed_path,
    {
        PackageInstall { ident, fs_root_path, package_root_path, installed_path }
    }

    pub fn ident(&self) -> (r: &ReleaseIdent)
        ensures
            *r == self.ident,
    {
        &self.ident
    }

    pub fn installed_path(&self) -> (r: &str)
        ensures
            r@ == self.installed_path@,
    {
        self.installed_path.as_str()
    }

    /// The text of the release.
    pub fn to_string(&self) -> (r: String)
        ensures
            r@ == crate::ident::print_segments(self.ident@),
    {
        self.ident.to_string()
    }
}

/// The key under which an environment holds the `PATH` value.
pub const PATH_KEY: &'static str = "PATH";

/// The default configuration of a package, as `toml` read it. Nothing is
/// stated of what it holds.
#[verifier::external_type_specification]
#[verifier::external_body]
pub struct ExTomlValue(toml::Value);

/// Whether `toml` reads `text` as a document: whether `toml::Value`'s
/// `from_str` succeeds on it.
pub uninterp spec fn toml_reads(text: Seq<char>) -> bool;

/// Reads a text as a document of `toml`, with `toml::Value`'s `from_str`.
/// There is a value where the name `toml_reads` holds of the text, and
/// nothing is stated of the value.
#[verifier::external_body]
fn read_toml(text: &str) -> (r: Option<toml::Value>)
    ensures
        r is Some == toml_reads(text@),
{
    text.parse::<toml::Value>().ok()
}

/// The entries of the package's own `PATH` metafile: those that start with
/// the directory of the package. On a host that runs Windows a package
/// without the metafile takes the `PATH` of its runtime environment in its
/// place.
pub open spec fn paths_spec(store: PackageStore, install: InstallView) -> Result<
    Seq<Seq<char>>,
    ErrorView,
> {
    let sep = path_separator_of(store.active_target);
    match store.read(install.ident, MetaFile::Path) {
        Ok(body) => Ok(own_entries(body, install.installed_path, sep)),
        Err(ErrorView::MetaFileNotFound(_)) => if store.active_target
            == PackageTarget::X86_64Windows {
            match key_value_file_of(
                store.read(install.ident, MetaFile::RuntimeEnvironment),
                MetaFile::RuntimeEnvironment,
            ) {
                Ok(pairs) => if pairs_map(pairs).contains_key(PATH_KEY@) {
                    Ok(own_entries(pairs_map(pairs)[PATH_KEY@], install.installed_path, sep))
                } else {
                    Ok(Seq::empty())
                },
                Err(e) => Err(e),
            }
        } else {
            Ok(Seq::empty())
        },
        Err(e) => Err(e),
    }
}

/// The step that finds the install of a dependency.
pub open spec fn load_step(store: PackageStore, fs_root: Seq<char>) -> spec_fn(
    Seq<Seq<char>>,
) -> Result<Option<InstallView>, ErrorView> {
    |dep: Seq<Seq<char>>|
        match load_spec(store, dep, fs_root) {
            Ok(install) => Ok(Some(install)),
            Err(e) => Err(e),
        }
}

/// The installs of the dependencies that a metafile lists, in its order.
/// A dependency that is not installed is an error.
pub open spec fn loaded_deps_spec(store: PackageStore, install: InstallView, file: MetaFile) -> Result<
    Seq<InstallView>,
    ErrorView,
> {
    match deps_of(store.read(install.ident, file), file) {
        Ok(deps) => collect(deps, load_step(store, install.fs_root_path)),
        Err(e) => Err(e),
    }
}

/// The step that reads the own `PATH` entries of a package.
pub open spec fn paths_step(store: PackageStore) -> spec_fn(InstallView) -> Result<
    Seq<Seq<char>>,
    ErrorView,
> {
    |install: InstallView| paths_spec(store, install)
}

/// The runtime `PATH` of a package that has no `RUNTIME_PATH` metafile: its
/// own entries, then those of its direct dependencies in the order in
/// which it lists them, then those of its transitive dependencies in the
/// order in which it lists them; each entry stands where it stands first.
pub open spec fn legacy_runtime_paths_spec(store: PackageStore, install: InstallView) -> Result<
    Seq<Seq<char>>,
    ErrorView,
> {
    match paths_spec(store, install) {
        Err(e) => Err(e),
        Ok(own) => match loaded_deps_spec(store, install, MetaFile::Deps) {
            Err(e) => Err(e),
            Ok(direct) => match loaded_deps_spec(store, install, MetaFile::TDeps) {
                Err(e) => Err(e),
                Ok(transitive) => match gather(direct + transitive, paths_step(store)) {
                    Err(e) => Err(e),
                    Ok(others) => Ok(dedup(own + others)),
                },
            },
        },
    }
}

/// The runtime `PATH` of a package: the entries of its `RUNTIME_PATH`
/// metafile, and where it has none, what its own `PATH` metafile and
/// those of its dependencies give.
pub open spec fn runtime_paths_spec(store: PackageStore, install: InstallView) -> Result<
    Seq<Seq<char>>,
    ErrorView,
> {
    match store.read(install.ident, MetaFile::RuntimePath) {
        Ok(body) => Ok(entries_of(body, path_separator_of(store.active_target))),
        Err(ErrorView::MetaFileNotFound(_)) => legacy_runtime_paths_spec(store, install),
        Err(e) => Err(e),
    }
}

/// The environment for a command, from the runtime environment of a
/// package and its runtime `PATH`: a `PATH` that the runtime environment
/// holds is dropped, and where the runtime `PATH` has entries, `PATH` is
/// these entries, joined.
pub open spec fn command_environment(
    env: Map<Seq<char>, Seq<char>>,
    paths: Seq<Seq<char>>,
    sep: char,
) -> Result<Map<Seq<char>, Seq<char>>, ErrorView> {
    if paths.len() == 0 {
        Ok(env.remove(PATH_KEY@))
    } else {
        match join_paths_spec(paths, sep) {
            Ok(path) => Ok(env.remove(PATH_KEY@).insert(PATH_KEY@, path)),
            Err(e) => Err(e),
        }
    }
}

/// The environment for a command of a package.
pub open spec fn environment_for_command_spec(store: PackageStore, install: InstallView) -> Result<
    Map<Seq<char>, Seq<char>>,
    ErrorView,
> {
    match key_value_file_of(
        store.read(install.ident, MetaFile::RuntimeEnvironment),
        MetaFile::RuntimeEnvironment,
    ) {
        Err(e) => Err(e),
        Ok(pairs) => match runtime_paths_spec(store, install) {
            Err(e) => Err(e),
            Ok(paths) => command_environment(
                pairs_map(pairs),
                paths,
                path_separator_of(store.active_target),
            ),
        },
    }
}

/// A result that holds a map, with texts as what they hold.
pub open spec fn map_view(r: Result<KeyValueMap, Error>) -> Result<
    Map<Seq<char>, Seq<char>>,
    ErrorView,
> {
    match r {
        Ok(map) => Ok(map@),
        Err(e) => Err(e@),
    }
}

/// The environment for a command, from a runtime environment and a runtime
/// `PATH` whose entries `sep` sets apart.
pub fn environment_for(env: KeyValueMap, paths: &Vec<String>, sep: char) -> (r: Result<
    KeyValueMap,
    Error,
>)
    ensures
        map_view(r) == command_environment(env@, views(paths@), sep),
{
    let mut env = env;
    env.remove(PATH_KEY);
    if paths.len() > 0 {
        match join_paths(paths, sep) {
            Ok(path) => {
                env.insert(PATH_KEY.to_owned(), path);
            },
            Err(e) => {
                return Err(e);
            },
        }
    }
    Ok(env)
}

/// The environment for a command has a `PATH` exactly where the runtime
/// `PATH` has entries, and that `PATH` is the entries, joined.
pub proof fn lemma_path_of_command_environment(
    env: Map<Seq<char>, Seq<char>>,
    paths: Seq<Seq<char>>,
    sep: char,
)
    requires
        command_environment(env, paths, sep) is Ok,
    ensures
        command_environment(env, paths, sep)->Ok_0.contains_key(PATH_KEY@) <==> paths.len() > 0,
        paths.len() > 0 ==> join_paths_spec(paths, sep) == Ok::<Seq<char>, ErrorView>(
            command_environment(env, paths, sep)->Ok_0[PATH_KEY@],
        ),
        forall|key: Seq<char>|
            key != PATH_KEY@ ==> (command_environment(env, paths, sep)->Ok_0.contains_key(key)
                <==> env.contains_key(key)),
        forall|key: Seq<char>|
            key != PATH_KEY@ && env.contains_key(key) ==> command_environment(
                env,
                paths,
                sep,
            )->Ok_0[key] == env[key],
{
}

fn paths_of_all(installs: &Vec<PackageInstall>, store: &PackageStore) -> (r: Result<
    Vec<String>,
    Error,
>)
    ensures
        model(r) == gather(installs.deep_view(), paths_step(*store)),
{
    let ghost step = paths_step(*store);
    let ghost all = installs.deep_view();
    let mut paths: Vec<String> = Vec::new();
    let mut i: usize = 0;
    proof {
        assert(all.take(0) =~= Seq::empty());
        assert(paths.deep_view() =~= Seq::empty());
    }
    while i < installs.len()
        invariant
            i <= installs.len(),
            step == paths_step(*store),
            all == installs.deep_view(),
            gather(all.take(i as int), step) == Ok::<Seq<Seq<char>>, ErrorView>(
                paths.deep_view(),
            ),
        decreases installs.len() - i,
    {
        proof {
            lemma_gather_next(all, step, i as int);
            assert(all[i as int] == installs[i as int]@);
        }
        let mut own = match installs[i].paths(store) {
            Ok(own) => own,
            Err(e) => {
                proof {
                    lemma_gather_fails(all, step, i + 1);
                }
                return Err(e);
            },
        };
        let ghost before = paths.deep_view();
        let ghost row = own.deep_view();
        paths.append(&mut own);
        proof {
            assert(paths.deep_view() =~= before + row);
        }
        i += 1;
    }
    proof {
        assert(all.take(i as int) =~= all);
    }
    Ok(paths)
}

impl PackageInstall {
    /// Whether the package has something to run: a `run` hook, or a `run`
    /// file in its directory.
    pub fn is_runnable(&self, store: &PackageStore) -> (r: bool)
        ensures
            r == match found(store.packages@, self.ident@) {
                Some(package) => package.run_hook || package.run_file,
                None => false,
            },
    {
        match store.package(&self.ident) {
            Some(package) => package.run_hook || package.run_file,
            None => false,
        }
    }

    /// The target that the package was built for.
    pub fn target(&self, store: &PackageStore) -> (r: Result<PackageTarget, Error>)
        ensures
            model(r) == match store.read(self.ident@, MetaFile::Target) {
                Ok(name) => match parse_target(name) {
                    Some(target) => Ok(target),
                    None => Err(ErrorView::InvalidPackageTarget(name)),
                },
                Err(e) => Err(e),
            },
    {
        match store.read_metafile(&self.ident, MetaFile::Target) {
            Ok(name) => PackageTarget::from_str(name.as_str()),
            Err(e) => Err(e),
        }
    }

    /// What kind of package this is. A package that does not say stands
    /// alone.
    pub fn pkg_type(&self, store: &PackageStore) -> (r: Result<PackageType, Error>)
        ensures
            model(r) == pkg_type_of(store.read(self.ident@, MetaFile::Type)),
    {
        parse_pkg_type(store.read_metafile(&self.ident, MetaFile::Type))
    }

    /// The services of a composite package, as the package names them: they
    /// need not name a release.
    pub fn pkg_services(&self, store: &PackageStore) -> (r: Result<Vec<Ident>, Error>)
        ensures
            model(r) == deps_of(store.read(self.ident@, MetaFile::Services), MetaFile::Services),
    {
        parse_deps(store.read_metafile(&self.ident, MetaFile::Services), MetaFile::Services)
    }

    /// The binds that the package must have.
    pub fn binds(&self, store: &PackageStore) -> (r: Result<Vec<Bind>, Error>)
        ensures
            model(r) == binds_of(store.read(self.ident@, MetaFile::Binds), MetaFile::Binds),
    {
        parse_binds(store.read_metafile(&self.ident, MetaFile::Binds), MetaFile::Binds)
    }

    /// The binds that the package can do without.
    pub fn binds_optional(&self, store: &PackageStore) -> (r: Result<Vec<Bind>, Error>)
        ensures
            model(r) == binds_of(
                store.read(self.ident@, MetaFile::BindsOptional),
                MetaFile::BindsOptional,
            ),
    {
        parse_binds(
            store.read_metafile(&self.ident, MetaFile::BindsOptional),
            MetaFile::BindsOptional,
        )
    }

    /// All binds of the package: those that it must have, then those that
    /// it can do without.
    pub fn all_binds(&self, store: &PackageStore) -> (r: Result<Vec<Bind>, Error>)
        ensures
            model(r) == match binds_of(store.read(self.ident@, MetaFile::Binds), MetaFile::Binds) {
                Err(e) => Err(e),
                Ok(binds) => match binds_of(
                    store.read(self.ident@, MetaFile::BindsOptional),
                    MetaFile::BindsOptional,
                ) {
                    Err(e) => Err(e),
                    Ok(optional) => Ok(binds + optional),
                },
            },
    {
        let mut all = match self.binds(store) {
            Ok(binds) => binds,
            Err(e) => {
                return Err(e);
            },
        };
        let mut optional = match self.binds_optional(store) {
            Ok(binds) => binds,
            Err(e) => {
                return Err(e);
            },
        };
        let ghost first = all.deep_view();
        let ghost second = optional.deep_view();
        all.append(&mut optional);
        proof {
            assert(all.deep_view() =~= first + second);
        }
        Ok(all)
    }

    /// The bind map of a composite package: for each of its services, which
    /// package meets which need. The lines stand in the order of the
    /// metafile.
    pub fn bind_map(&self, store: &PackageStore) -> (r: Result<
        Vec<(Ident, Vec<BindMapping>)>,
        Error,
    >)
        ensures
            model(r) == bind_map_of(store.read(self.ident@, MetaFile::BindMap)),
    {
        parse_bind_map(store.read_metafile(&self.ident, MetaFile::BindMap))
    }

    /// The default configuration of the package. A package without one, or
    /// with one that `toml` cannot read, has none.
    pub fn default_cfg(&self, store: &PackageStore) -> (r: Option<toml::Value>)
        ensures
            r is Some == match found(store.packages@, self.ident@) {
                Some(package) => match package.default_cfg {
                    Some(raw) => toml_reads(raw@),
                    None => false,
                },
                None => false,
            },
    {
        match store.package(&self.ident) {
            Some(package) => match &package.default_cfg {
                Some(raw) => read_toml(raw.as_str()),
                None => None,
            },
            None => None,
        }
    }

    /// The direct dependencies of the package, in the order in which it
    /// lists them.
    pub fn deps(&self, store: &PackageStore) -> (r: Result<Vec<Ident>, Error>)
        ensures
            model(r) == deps_of(store.read(self.ident@, MetaFile::Deps), MetaFile::Deps),
            r matches Ok(deps) ==> forall|i: int| 0 <= i < deps.len() ==> (#[trigger] deps[i]) is Release,
    {
        parse_deps(store.read_metafile(&self.ident, MetaFile::Deps), MetaFile::Deps)
    }

    /// The transitive dependencies of the package, in the order in which it
    /// lists them.
    pub fn tdeps(&self, store: &PackageStore) -> (r: Result<Vec<Ident>, Error>)
        ensures
            model(r) == deps_of(store.read(self.ident@, MetaFile::TDeps), MetaFile::TDeps),
            r matches Ok(deps) ==> forall|i: int| 0 <= i < deps.len() ==> (#[trigger] deps[i]) is Release,
    {
        parse_deps(store.read_metafile(&self.ident, MetaFile::TDeps), MetaFile::TDeps)
    }

    /// What the package exports: the keys of its public configuration, each
    /// with the place of its value in the configuration of the package.
    pub fn exports(&self, store: &PackageStore) -> (r: Result<KeyValueMap, Error>)
        ensures
            match r {
                Ok(map) => key_value_file_of(
                    store.read(self.ident@, MetaFile::Exports),
                    MetaFile::Exports,
                ) == Ok::<Seq<(Seq<char>, Seq<char>)>, ErrorView>(pair_views(map.pairs@)),
                Err(e) => key_value_file_of(
                    store.read(self.ident@, MetaFile::Exports),
                    MetaFile::Exports,
                ) == Err::<Seq<(Seq<char>, Seq<char>)>, ErrorView>(e@),
            },
    {
        parse_key_value_file(store.read_metafile(&self.ident, MetaFile::Exports), MetaFile::Exports)
    }

    /// The ports that the package exposes.
    pub fn exposes(&self, store: &PackageStore) -> (r: Result<Vec<String>, Error>)
        ensures
            model(r) == exposes_of(store.read(self.ident@, MetaFile::Exposes)),
    {
        parse_exposes(store.read_metafile(&self.ident, MetaFile::Exposes))
    }

    /// The user that the package wants to run as, if it names one.
    pub fn svc_user(&self, store: &PackageStore) -> (r: Result<Option<String>, Error>)
        ensures
            model(r) == single_of(store.read(self.ident@, MetaFile::SvcUser)),
    {
        parse_single(store.read_metafile(&self.ident, MetaFile::SvcUser))
    }

    /// The group that the package wants to run as, if it names one.
    pub fn svc_group(&self, store: &PackageStore) -> (r: Result<Option<String>, Error>)
        ensures
            model(r) == single_of(store.read(self.ident@, MetaFile::SvcGroup)),
    {
        parse_single(store.read_metafile(&self.ident, MetaFile::SvcGroup))
    }

    /// The runtime environment of the package. A package without the
    /// metafile has an empty one.
    pub fn runtime_environment(&self, store: &PackageStore) -> (r: Result<KeyValueMap, Error>)
        ensures
            match r {
                Ok(map) => key_value_file_of(
                    store.read(self.ident@, MetaFile::RuntimeEnvironment),
                    MetaFile::RuntimeEnvironment,
                ) == Ok::<Seq<(Seq<char>, Seq<char>)>, ErrorView>(pair_views(map.pairs@)),
                Err(e) => key_value_file_of(
                    store.read(self.ident@, MetaFile::RuntimeEnvironment),
                    MetaFile::RuntimeEnvironment,
                ) == Err::<Seq<(Seq<char>, Seq<char>)>, ErrorView>(e@),
            },
    {
        parse_key_value_file(
            store.read_metafile(&self.ident, MetaFile::RuntimeEnvironment),
            MetaFile::RuntimeEnvironment,
        )
    }

    /// The entries of the package's own `PATH` metafile that lie in the
    /// directory of the package. Entries that lead elsewhere, which older
    /// packages wrote, are dropped.
    pub fn paths(&self, store: &PackageStore) -> (r: Result<Vec<String>, Error>)
        ensures
            model(r) == paths_spec(*store, self@),
    {
        let sep = store.active_target.path_separator();
        match store.read_metafile(&self.ident, MetaFile::Path) {
            Ok(body) => {
                let own = own_paths(body.as_str(), self.installed_path.as_str(), sep);
                proof {
                    assert(own.deep_view() =~= views(own@));
                }
                Ok(own)
            },
            Err(Error::MetaFileNotFound(_)) => {
                let none: Vec<String> = Vec::new();
                proof {
                    assert(none.deep_view() =~= Seq::empty());
                }
                if store.active_target == PackageTarget::X86_64Windows {
                    let env = match self.runtime_environment(store) {
                        Ok(env) => env,
                        Err(e) => {
                            return Err(e);
                        },
                    };
                    match env.get(PATH_KEY) {
                        Some(path) => {
                            let own = own_paths(path.as_str(), self.installed_path.as_str(), sep);
                            proof {
                                assert(own.deep_view() =~= views(own@));
                            }
                            Ok(own)
                        },
                        None => Ok(none),
                    }
                } else {
                    Ok(none)
                }
            },
            Err(e) => Err(e),
        }
    }

    fn load_all(&self, deps: &Vec<Ident>, store: &PackageStore) -> (r: Result<
        Vec<PackageInstall>,
        Error,
    >)
        ensures
            model(r) == collect(deps.deep_view(), load_step(*store, self.fs_root_path@)),
    {
        let ghost step = load_step(*store, self.fs_root_path@);
        let ghost all = deps.deep_view();
        let mut installs: Vec<PackageInstall> = Vec::new();
        let mut i: usize = 0;
        proof {
            assert(all.take(0) =~= Seq::empty());
            assert(installs.deep_view() =~= Seq::empty());
        }
        while i < deps.len()
            invariant
                i <= deps.len(),
                step == load_step(*store, self.fs_root_path@),
                all == deps.deep_view(),
                collect(all.take(i as int), step) == Ok::<Seq<InstallView>, ErrorView>(
                    installs.deep_view(),
                ),
            decreases deps.len() - i,
        {
            proof {
                lemma_collect_next(all, step, i as int);
                assert(all[i as int] == deps[i as int]@);
            }
            let install = match PackageInstall::load(
                &deps[i],
                Some(self.fs_root_path.as_str()),
                store,
            ) {
                Ok(install) => install,
                Err(e) => {
                    proof {
                        lemma_collect_fails(all, step, i + 1);
                    }
                    return Err(e);
                },
            };
            let ghost before = installs.deep_view();
            let ghost added = install@;
            installs.push(install);
            proof {
                assert(installs.deep_view() =~= before.push(added));
            }
            i += 1;
        }
        proof {
            assert(all.take(i as int) =~= all);
        }
        Ok(installs)
    }

    /// The installs of the direct dependencies, in the order in which the
    /// package lists them. A dependency that is not installed is an error.
    pub fn load_deps(&self, store: &PackageStore) -> (r: Result<Vec<PackageInstall>, Error>)
        ensures
            model(r) == loaded_deps_spec(*store, self@, MetaFile::Deps),
    {
        match self.deps(store) {
            Ok(deps) => self.load_all(&deps, store),
            Err(e) => Err(e),
        }
    }

    /// The installs of the transitive dependencies, in the order in which
    /// the package lists them. A dependency that is not installed is an
    /// error.
    pub fn load_tdeps(&self, store: &PackageStore) -> (r: Result<Vec<PackageInstall>, Error>)
        ensures
            model(r) == loaded_deps_spec(*store, self@, MetaFile::TDeps),
    {
        match self.tdeps(store) {
            Ok(deps) => self.load_all(&deps, store),
            Err(e) => Err(e),
        }
    }

    /// The runtime `PATH` of a package that has no `RUNTIME_PATH` metafile,
    /// put together from the `PATH` metafiles of the package and of its
    /// dependencies: first the package's own entries, then those of its
    /// direct dependencies, then those of its transitive dependencies.
    /// Each entry stands once, where it stands first.
    pub fn legacy_runtime_paths(&self, store: &PackageStore) -> (r: Result<Vec<String>, Error>)
        ensures
            model(r) == legacy_runtime_paths_spec(*store, self@),
    {
        let mut all = match self.paths(store) {
            Ok(own) => own,
            Err(e) => {
                return Err(e);
            },
        };
        let mut packages = match self.load_deps(store) {
            Ok(direct) => direct,
            Err(e) => {
                return Err(e);
            },
        };
        let mut transitive = match self.load_tdeps(store) {
            Ok(transitive) => transitive,
            Err(e) => {
                return Err(e);
            },
        };
        let ghost direct_view = packages.deep_view();
        let ghost transitive_view = transitive.deep_view();
        packages.append(&mut transitive);
        proof {
            assert(packages.deep_view() =~= direct_view + transitive_view);
        }
        let mut others = match paths_of_all(&packages, store) {
            Ok(others) => others,
            Err(e) => {
                return Err(e);
            },
        };
        let ghost own_view = all.deep_view();
        let ghost others_view = others.deep_view();
        all.append(&mut others);
        let paths = without_duplicates(&all);
        proof {
            assert(views(all@) =~= own_view + others_view);
            assert(paths.deep_view() =~= views(paths@));
        }
        Ok(paths)
    }

    /// The runtime `PATH` of the package: the entries of its
    /// `RUNTIME_PATH` metafile, or, for an older package without one,
    /// what `legacy_runtime_paths` gives.
    pub fn runtime_paths(&self, store: &PackageStore) -> (r: Result<Vec<String>, Error>)
        ensures
            model(r) == runtime_paths_spec(*store, self@),
    {
        match store.read_metafile(&self.ident, MetaFile::RuntimePath) {
            Ok(body) => {
                let paths = split_paths(body.as_str(), store.active_target.path_separator());
                proof {
                    assert(paths.deep_view() =~= views(paths@));
                }
                Ok(paths)
            },
            Err(Error::MetaFileNotFound(_)) => self.legacy_runtime_paths(store),
            Err(e) => Err(e),
        }
    }

    /// The environment in which a command of the package is to run: the
    /// runtime environment of the package, with `PATH` set to its runtime
    /// `PATH`. Where the runtime `PATH` has no entries the environment has
    /// no `PATH`.
    pub fn environment_for_command(&self, store: &PackageStore) -> (r: Result<KeyValueMap, Error>)
        ensures
            map_view(r) == environment_for_command_spec(*store, self@),
    {
        let env = match self.runtime_environment(store) {
            Ok(env) => env,
            Err(e) => {
                return Err(e);
            },
        };
        let paths = match self.runtime_paths(store) {
            Ok(paths) => paths,
            Err(e) => {
                return Err(e);
            },
        };
        proof {
            assert(paths.deep_view() =~= views(paths@));
        }
        environment_for(env, &paths, store.active_target.path_separator())
    }
}

/// Among the candidates that answer the request, what is no greater than
/// something that is no greater than a third is no greater than the third.
pub open spec fn transitive_among(candidates: Seq<Seq<Seq<char>>>, query: Seq<Seq<char>>) -> bool {
    forall|a: int, b: int, c: int|
        0 <= a < candidates.len() && 0 <= b < candidates.len() && 0 <= c < candidates.len()
            && satisfies_spec(candidates[a], query) && satisfies_spec(candidates[b], query)
            && satisfies_spec(candidates[c], query) && #[trigger] at_most(
            candidates[a],
            candidates[b],
        ) && #[trigger] at_most(candidates[b], candidates[c]) ==> at_most(
            candidates[a],
            candidates[c],
        )
}

/// Every candidate has a version that is made of numbers.
pub open spec fn all_numeric(candidates: Seq<Seq<Seq<char>>>) -> bool {
    forall|i: int| 0 <= i < candidates.len() ==> numeric(#[trigger] candidates[i][2])
}

/// Among releases whose versions are made of numbers the order is
/// transitive.
pub proof fn lemma_numeric_is_transitive(candidates: Seq<Seq<Seq<char>>>, query: Seq<Seq<char>>)
    requires
        all_releases(candidates),
        all_numeric(candidates),
    ensures
        transitive_among(candidates, query),
{
    assert forall|a: int, b: int, c: int|
        0 <= a < candidates.len() && 0 <= b < candidates.len() && 0 <= c < candidates.len()
            && satisfies_spec(candidates[a], query) && satisfies_spec(candidates[b], query)
            && satisfies_spec(candidates[c], query) && #[trigger] at_most(
            candidates[a],
            candidates[b],
        ) && #[trigger] at_most(candidates[b], candidates[c]) implies at_most(
        candidates[a],
        candidates[c],
    ) by {
        assert(candidates[a].len() == 4 && candidates[b].len() == 4 && candidates[c].len() == 4);
        assert(numeric(candidates[a][2]) && numeric(candidates[b][2]) && numeric(
            candidates[c][2],
        ));
        lemma_release_order_chained(candidates[a], candidates[b], candidates[c]);
    }
}

/// Every candidate names a release.
pub open spec fn all_releases(candidates: Seq<Seq<Seq<char>>>) -> bool {
    forall|i: int| 0 <= i < candidates.len() ==> (#[trigger] candidates[i]).len() == 4
}

/// What `latest` keeps is one of the candidates that answer the request,
/// and it keeps one as soon as one answers.
pub proof fn lemma_latest_answers(candidates: Seq<Seq<Seq<char>>>, query: Seq<Seq<char>>) -> (j:
    int)
    ensures
        latest(candidates, query) is None <==> !answers(candidates, query),
        latest(candidates, query) matches Some(winner) ==> 0 <= j < candidates.len()
            && candidates[j] == winner && satisfies_spec(winner, query),
    decreases candidates.len(),
{
    if candidates.len() == 0 {
        0
    } else {
        let rest = candidates.drop_last();
        let next = candidates.last();
        let j = lemma_latest_answers(rest, query);
        if answers(rest, query) {
            let i = choose|i: int| 0 <= i < rest.len() && satisfies_spec(#[trigger] rest[i], query);
            assert(satisfies_spec(candidates[i], query));
        }
        if answers(candidates, query) && !satisfies_spec(next, query) {
            let i = choose|i: int|
                0 <= i < candidates.len() && satisfies_spec(#[trigger] candidates[i], query);
            assert(satisfies_spec(rest[i], query));
        }
        if satisfies_spec(next, query) {
            assert(satisfies_spec(candidates[candidates.len() - 1], query));
        }
        match latest(candidates, query) {
            Some(winner) => if winner == next && satisfies_spec(next, query) {
                candidates.len() - 1
            } else {
                assert(rest[j] == candidates[j]);
                j
            },
            None => 0,
        }
    }
}

/// The release that a request without a release stands for is the
/// greatest of the candidates that answer it: it is one of them, and none
/// of them is greater. This holds where the order is transitive among
/// them, which `lemma_numeric_is_transitive` shows for versions that are
/// made of numbers.
pub proof fn lemma_latest_is_greatest(
    candidates: Seq<Seq<Seq<char>>>,
    query: Seq<Seq<char>>,
    k: int,
)
    requires
        all_releases(candidates),
        transitive_among(candidates, query),
        0 <= k < candidates.len(),
        satisfies_spec(candidates[k], query),
    ensures
        latest(candidates, query) is Some,
        candidates.contains(latest(candidates, query)->Some_0),
        satisfies_spec(latest(candidates, query)->Some_0, query),
        at_most(candidates[k], latest(candidates, query)->Some_0),
    decreases candidates.len(),
{
    let rest = candidates.drop_last();
    let next = candidates.last();
    let last = candidates.len() - 1;
    let j = lemma_latest_answers(candidates, query);
    let winner = latest(candidates, query)->Some_0;
    assert(satisfies_spec(candidates[k], query));
    assert(candidates[j] == winner);
    assert(candidates[last].len() == 4 && candidates[k].len() == 4);
    lemma_release_order_reversed(next, next);
    lemma_latest_answers(rest, query);
    assert forall|i: int| 0 <= i < rest.len() implies (#[trigger] rest[i]).len() == 4 by {
        assert(rest[i] == candidates[i]);
    }
    assert(transitive_among(rest, query)) by {
        assert forall|a: int, b: int, c: int|
            0 <= a < rest.len() && 0 <= b < rest.len() && 0 <= c < rest.len() && satisfies_spec(
                rest[a],
                query,
            ) && satisfies_spec(rest[b], query) && satisfies_spec(rest[c], query)
                && #[trigger] at_most(rest[a], rest[b]) && #[trigger] at_most(
                rest[b],
                rest[c],
            ) implies at_most(rest[a], rest[c]) by {
            assert(rest[a] == candidates[a] && rest[b] == candidates[b] && rest[c]
                == candidates[c]);
            assert(at_most(candidates[a], candidates[b]) && at_most(candidates[b], candidates[c]));
        }
    }
    if !satisfies_spec(next, query) {
        assert(rest[k] == candidates[k]);
        lemma_latest_is_greatest(rest, query, k);
    } else {
        match latest(rest, query) {
            None => {
                if k < last {
                    assert(satisfies_spec(rest[k], query));
                }
            },
            Some(kept) => {
                let i = lemma_latest_answers(rest, query);
                assert(rest[i] == candidates[i]);
                assert(candidates[i].len() == 4);
                lemma_release_order_reversed(kept, next);
                if k < last {
                    assert(rest[k] == candidates[k]);
                    lemma_latest_is_greatest(rest, query, k);
                    if partial_order(kept, next) == Some(Ordering::Less) {
                        assert(at_most(candidates[k], candidates[i]));
                        assert(at_most(candidates[i], candidates[last]));
                    }
                }
            },
        }
    }
}

/// A release that does not count as installed is never loaded: what `load`
/// gives is a release of the store that is no unfinished install and whose
/// `TARGET` metafile is there, can be read and names the target that the
/// host runs.
pub proof fn lemma_loaded_is_visible(store: PackageStore, query: Seq<Seq<char>>, fs_root: Seq<char>) -> (i:
    int)
    requires
        load_spec(store, query, fs_root) is Ok,
    ensures
        0 <= i < store.packages@.len(),
        crate::store::visible(store.packages@[i], store.active_target),
        store.packages@[i].ident@ == load_spec(store, query, fs_root)->Ok_0.ident,
{
    let candidates = store.candidates();
    if query.len() == 4 {
        let k = choose|k: int|
            0 <= k < candidates.len() && satisfies_spec(#[trigger] candidates[k], query);
        let i = crate::store::lemma_candidates_are_visible(store, k);
        assert(store.packages@[i].ident@.len() == 4);
        assert(candidates[k] =~= query);
        i
    } else {
        let k = lemma_latest_answers(candidates, query);
        crate::store::lemma_candidates_are_visible(store, k)
    }
}

/// A request is met exactly where a release that counts as installed
/// answers it; where none does, the package is not found.
pub proof fn lemma_load_finds_what_answers(
    store: PackageStore,
    query: Seq<Seq<char>>,
    fs_root: Seq<char>,
)
    ensures
        load_spec(store, query, fs_root) is Ok <==> answers(store.candidates(), query),
        load_spec(store, query, fs_root) matches Err(e) ==> e == ErrorView::PackageNotFound(query),
        load_spec(store, query, fs_root) matches Ok(install) ==> store.candidates().contains(
            install.ident,
        ) && satisfies_spec(install.ident, query) && install == install_of(install.ident, fs_root),
{
    let candidates = store.candidates();
    let j = lemma_latest_answers(candidates, query);
    if query.len() == 4 && answers(candidates, query) {
        let k = choose|k: int|
            0 <= k < candidates.len() && satisfies_spec(#[trigger] candidates[k], query);
        let i = crate::store::lemma_candidates_are_visible(store, k);
        assert(store.packages@[i].ident@.len() == 4);
        assert(candidates[k] =~= query);
    }
}

/// A request without a release is met by the greatest of the releases that
/// count as installed and answer it: none of them is greater than the one
/// that is loaded. This holds where the order is transitive among them.
pub proof fn lemma_load_is_greatest(
    store: PackageStore,
    query: Seq<Seq<char>>,
    fs_root: Seq<char>,
    k: int,
)
    requires
        query.len() < 4,
        transitive_among(store.candidates(), query),
        0 <= k < store.candidates().len(),
        satisfies_spec(store.candidates()[k], query),
    ensures
        load_spec(store, query, fs_root) is Ok,
        at_most(store.candidates()[k], load_spec(store, query, fs_root)->Ok_0.ident),
{
    let candidates = store.candidates();
    assert forall|i: int| 0 <= i < candidates.len() implies (#[trigger] candidates[i]).len()
        == 4 by {
        let at = crate::store::lemma_candidates_are_visible(store, i);
        assert(store.packages@[at].ident@.len() == 4);
    }
    lemma_latest_is_greatest(candidates, query, k);
}

} // verus!
