use std::collections::HashMap;

use habitat_core::error::Error;
use habitat_core::ident::{Ident, ReleaseIdent};
use habitat_core::install::{environment_for, PackageInstall};
use habitat_core::keyvalue::KeyValueMap;
use habitat_core::metadata::{BindMapping, MetaFile, PackageType};
use habitat_core::store::{FileContent, InstalledPackage, PackageStore};
use habitat_core::target::PackageTarget;

const FS_ROOT: &str = "/";
const RELEASE: &str = "20180704142702";

fn active_target() -> PackageTarget {
    PackageTarget::X86_64Linux
}

/// A target that is not the one the store runs.
fn wrong_package_target() -> PackageTarget {
    PackageTarget::X86_64Darwin
}

fn new_store() -> PackageStore {
    PackageStore::new(active_target())
}

/// Puts a release into the store, with nothing but its `IDENT` and `TARGET`
/// metafiles, and loads it. An identifier without a version gets version
/// `1.0.0`, and one without a release gets a release.
fn testing_package_install(store: &mut PackageStore, ident: &str) -> PackageInstall {
    let parsed = Ident::from_str(ident).unwrap();
    let version = parsed.version().map(|v| v.as_str()).unwrap_or("1.0.0");
    let release = parsed.release().map(|r| r.as_str()).unwrap_or(RELEASE);
    let pkg_ident = ReleaseIdent::from_raw_parts(
        parsed.origin().as_str(),
        parsed.name().as_str(),
        version,
        release,
    )
    .unwrap();

    let mut package = InstalledPackage::new(pkg_ident.clone());
    package.write(MetaFile::Ident, FileContent::Text(pkg_ident.to_string()));
    package.write(
        MetaFile::Target,
        FileContent::Text(active_target().as_str().to_string()),
    );
    store.packages.push(package);

    match PackageInstall::load(&Ident::Release(pkg_ident.clone()), Some(FS_ROOT), store) {
        Ok(install) => install,
        Err(e) => panic!("PackageInstall should load for {:?}: {:?}", pkg_ident, e),
    }
}

fn package_of<'a>(store: &'a mut PackageStore, install: &PackageInstall) -> &'a mut InstalledPackage {
    store
        .packages
        .iter_mut()
        .rev()
        .find(|p| p.ident == install.ident)
        .unwrap()
}

/// Writes the given contents into the metafile of the package.
fn write_metafile(store: &mut PackageStore, install: &PackageInstall, file: MetaFile, content: &str) {
    package_of(store, install).write(file, FileContent::Text(content.to_string()));
}

fn remove_metafile(store: &mut PackageStore, install: &PackageInstall, file: MetaFile) {
    package_of(store, install).write(file, FileContent::Missing);
}

fn pkg_prefix_for(install: &PackageInstall) -> String {
    install.installed_path().to_string()
}

fn join(prefix: &str, entry: &str) -> String {
    format!("{}/{}", prefix, entry)
}

/// Writes a `PATH` metafile whose entries all lie in the package.
fn set_path_for(store: &mut PackageStore, install: &PackageInstall, paths: Vec<&str>) {
    let entries: Vec<String> = paths
        .iter()
        .map(|p| join(&pkg_prefix_for(install), p))
        .collect();
    write_metafile(store, install, MetaFile::Path, &entries.join(":"));
}

/// Writes a `RUNTIME_PATH` metafile from the `PATH` metafiles of the given
/// installs, in their order.
fn set_runtime_path_for(store: &mut PackageStore, install: &PackageInstall, installs: Vec<&PackageInstall>) {
    let mut paths = Vec::new();
    for other in installs {
        for path in other.paths(store).expect("Could not read or parse PATH metafile") {
            paths.push(path)
        }
    }
    write_metafile(store, install, MetaFile::RuntimePath, &paths.join(":"));
}

fn set_deps_for(store: &mut PackageStore, install: &PackageInstall, deps: Vec<&PackageInstall>) {
    let mut content = String::new();
    for dep in deps.iter().map(|d| d.ident()) {
        content.push_str(&format!("{}\n", dep.to_string()));
    }
    write_metafile(store, install, MetaFile::Deps, &content);
}

fn set_tdeps_for(store: &mut PackageStore, install: &PackageInstall, tdeps: Vec<&PackageInstall>) {
    let mut content = String::new();
    for tdep in tdeps.iter().map(|d| d.ident()) {
        content.push_str(&format!("{}\n", tdep.to_string()));
    }
    write_metafile(store, install, MetaFile::TDeps, &content);
}

fn as_hash_map(map: &KeyValueMap) -> HashMap<String, String> {
    map.pairs.iter().cloned().collect()
}

fn mapping(text: &str) -> BindMapping {
    BindMapping::from_str(text).unwrap()
}

#[test]
fn reading_a_valid_bind_map_file_works() {
    let mut store = new_store();
    let package_install = testing_package_install(&mut store, "core/composite");

    let bind_map_contents = r#"
core/foo=db:core/database fe:core/front-end be:core/back-end
core/bar=pub:core/publish sub:core/subscribe
        "#;
    write_metafile(&mut store, &package_install, MetaFile::BindMap, bind_map_contents);

    let bind_map = package_install.bind_map(&store).unwrap();

    let expected = vec![
        (
            Ident::from_str("core/foo").unwrap(),
            vec![
                mapping("db:core/database"),
                mapping("fe:core/front-end"),
                mapping("be:core/back-end"),
            ],
        ),
        (
            Ident::from_str("core/bar").unwrap(),
            vec![mapping("pub:core/publish"), mapping("sub:core/subscribe")],
        ),
    ];

    assert_eq!(expected, bind_map);
    assert_eq!("db", bind_map[0].1[0].bind_name);
    assert_eq!(
        Ident::from_str("core/database").unwrap(),
        bind_map[0].1[0].satisfying_service
    );
}

#[test]
fn reading_a_bad_bind_map_file_results_in_an_error() {
    let mut store = new_store();
    let package_install = testing_package_install(&mut store, "core/dud");

    let bind_map_contents = "core/foo=db:this-is-not-an-identifier";
    write_metafile(&mut store, &package_install, MetaFile::BindMap, bind_map_contents);

    let bind_map = package_install.bind_map(&store);
    assert!(bind_map.is_err());
    assert!(matches!(
        bind_map,
        Err(Error::MetaFileMalformed(MetaFile::BindMap))
    ));
}

#[test]
fn missing_bind_map_files_are_ok() {
    let mut store = new_store();
    let package_install = testing_package_install(&mut store, "core/no-binds");

    let bind_map = package_install.bind_map(&store).unwrap();
    assert!(bind_map.is_empty());
}

#[test]
fn load_with_fully_qualified_ident_matching_target() {
    let mut store = new_store();
    let ident_s = "dream-theater/systematic-chaos/1.2.3/20180704142702";
    let pkg_install = testing_package_install(&mut store, ident_s);
    write_metafile(&mut store, &pkg_install, MetaFile::Target, active_target().as_str());

    let loaded =
        PackageInstall::load(&Ident::from_str(ident_s).unwrap(), Some(FS_ROOT), &store).unwrap();
    assert_eq!(pkg_install, loaded);
    assert_eq!(active_target(), loaded.target(&store).unwrap());
}

#[test]
fn load_with_fully_qualified_ident_with_wrong_target_returns_package_not_found_err() {
    let mut store = new_store();
    let ident_s = "dream-theater/systematic-chaos/1.2.3/20180704142702";
    let pkg_install = testing_package_install(&mut store, ident_s);
    write_metafile(&mut store, &pkg_install, MetaFile::Target, wrong_package_target().as_str());
    let ident = Ident::from_str(ident_s).unwrap();

    match PackageInstall::load(&ident, Some(FS_ROOT), &store) {
        Err(Error::PackageNotFound(ref err_ident)) => {
            assert_eq!(&ident, err_ident);
        }
        Err(e) => panic!("Wrong error returned, error={:?}", e),
        Ok(i) => panic!("Should not load successfully, install_ident={}", i.to_string()),
    }
}

#[test]
fn load_with_fuzzy_ident_matching_target() {
    let mut store = new_store();
    let ident_s = "dream-theater/systematic-chaos/1.2.3/20180704142702";
    let pkg_install = testing_package_install(&mut store, ident_s);
    write_metafile(&mut store, &pkg_install, MetaFile::Target, active_target().as_str());

    let loaded = PackageInstall::load(
        &Ident::from_str("dream-theater/systematic-chaos").unwrap(),
        Some(FS_ROOT),
        &store,
    )
    .unwrap();
    assert_eq!(pkg_install, loaded);
    assert_eq!(active_target(), loaded.target(&store).unwrap());
}

#[test]
fn load_with_fuzzy_ident_with_wrong_target_returns_package_not_found_err() {
    let mut store = new_store();
    let ident_s = "dream-theater/systematic-chaos/1.2.3/20180704142702";
    let pkg_install = testing_package_install(&mut store, ident_s);
    write_metafile(&mut store, &pkg_install, MetaFile::Target, wrong_package_target().as_str());
    let ident = Ident::from_str("dream-theater/systematic-chaos").unwrap();

    match PackageInstall::load(&ident, Some(FS_ROOT), &store) {
        Err(Error::PackageNotFound(ref err_ident)) => {
            assert_eq!(&ident, err_ident);
        }
        Err(e) => panic!("Wrong error returned, error={:?}", e),
        Ok(i) => panic!("Should not load successfully, install_ident={}", i.to_string()),
    }
}

#[test]
fn load_with_fuzzy_ident_with_multiple_packages_only_one_matching_target() {
    let mut store = new_store();

    // This installed package is older but matching the active package target
    let matching_ident_s = "dream-theater/systematic-chaos/1.1.1/20180704142702";
    let matching_pkg_install = testing_package_install(&mut store, matching_ident_s);
    write_metafile(&mut store, &matching_pkg_install, MetaFile::Target, active_target().as_str());

    // This installed package is newer but does not match the active package target
    let wrong_ident_s = "dream-theater/systematic-chaos/5.5.5/20180704142702";
    let wrong_pkg_install = testing_package_install(&mut store, wrong_ident_s);
    write_metafile(&mut store, &wrong_pkg_install, MetaFile::Target, wrong_package_target().as_str());

    let loaded = PackageInstall::load(
        &Ident::from_str("dream-theater/systematic-chaos").unwrap(),
        Some(FS_ROOT),
        &store,
    )
    .unwrap();
    assert_eq!(matching_pkg_install, loaded);
    assert_eq!(active_target(), loaded.target(&store).unwrap());
}

#[test]
fn load_with_missing_target_returns_package_not_found_err() {
    let mut store = new_store();
    let ident_s = "dream-theater/systematic-chaos/1.2.3/20180704142702";
    let pkg_install = testing_package_install(&mut store, ident_s);
    remove_metafile(&mut store, &pkg_install, MetaFile::Target);
    let ident = Ident::from_str(ident_s).unwrap();

    match PackageInstall::load(&ident, Some(FS_ROOT), &store) {
        Err(Error::PackageNotFound(ref err_ident)) => {
            assert_eq!(&ident, err_ident);
        }
        Err(e) => panic!("Wrong error returned, error={:?}", e),
        Ok(i) => panic!("Should not load successfully, install_ident={}", i.to_string()),
    }
}

#[test]
fn load_with_malformed_target_returns_package_not_found_err() {
    let mut store = new_store();
    let ident_s = "dream-theater/systematic-chaos/1.2.3/20180704142702";
    let pkg_install = testing_package_install(&mut store, ident_s);
    write_metafile(&mut store, &pkg_install, MetaFile::Target, "NOT_A_TARGET_EVER");
    let ident = Ident::from_str(ident_s).unwrap();

    match PackageInstall::load(&ident, Some(FS_ROOT), &store) {
        Err(Error::PackageNotFound(ref err_ident)) => {
            assert_eq!(&ident, err_ident);
        }
        Err(e) => panic!("Wrong error returned, error={:?}", e),
        Ok(i) => panic!("Should not load successfully, install_ident={}", i.to_string()),
    }
}

#[test]
fn load_at_least_with_fully_qualified_ident_matching_target() {
    let mut store = new_store();
    let ident_s = "dream-theater/systematic-chaos/1.2.3/20180704142702";
    let pkg_install = testing_package_install(&mut store, ident_s);
    write_metafile(&mut store, &pkg_install, MetaFile::Target, active_target().as_str());

    let loaded =
        PackageInstall::load_at_least(&Ident::from_str(ident_s).unwrap(), Some(FS_ROOT), &store)
            .unwrap();
    assert_eq!(pkg_install, loaded);
    assert_eq!(active_target(), loaded.target(&store).unwrap());
}

#[test]
fn load_at_least_with_fully_qualified_ident_with_wrong_target_returns_package_not_found_err() {
    let mut store = new_store();
    let ident_s = "dream-theater/systematic-chaos/1.2.3/20180704142702";
    let pkg_install = testing_package_install(&mut store, ident_s);
    write_metafile(&mut store, &pkg_install, MetaFile::Target, wrong_package_target().as_str());
    let ident = Ident::from_str(ident_s).unwrap();

    match PackageInstall::load_at_least(&ident, Some(FS_ROOT), &store) {
        Err(Error::PackageNotFound(ref err_ident)) => {
            assert_eq!(&ident, err_ident);
        }
        Err(e) => panic!("Wrong error returned, error={:?}", e),
        Ok(i) => panic!("Should not load successfully, install_ident={}", i.to_string()),
    }
}

#[test]
fn load_at_least_with_fuzzy_ident_matching_target() {
    let mut store = new_store();
    let ident_s = "dream-theater/systematic-chaos/1.2.3/20180704142702";
    let pkg_install = testing_package_install(&mut store, ident_s);
    write_metafile(&mut store, &pkg_install, MetaFile::Target, active_target().as_str());

    let loaded = PackageInstall::load_at_least(
        &Ident::from_str("dream-theater/systematic-chaos").unwrap(),
        Some(FS_ROOT),
        &store,
    )
    .unwrap();
    assert_eq!(pkg_install, loaded);
    assert_eq!(active_target(), loaded.target(&store).unwrap());
}

#[test]
fn load_at_least_with_fuzzy_ident_with_wrong_target_returns_package_not_found_err() {
    let mut store = new_store();
    let ident_s = "dream-theater/systematic-chaos/1.2.3/20180704142702";
    let pkg_install = testing_package_install(&mut store, ident_s);
    write_metafile(&mut store, &pkg_install, MetaFile::Target, wrong_package_target().as_str());
    let ident = Ident::from_str("dream-theater/systematic-chaos").unwrap();

    match PackageInstall::load_at_least(&ident, Some(FS_ROOT), &store) {
        Err(Error::PackageNotFound(ref err_ident)) => {
            assert_eq!(&ident, err_ident);
        }
        Err(e) => panic!("Wrong error returned, error={:?}", e),
        Ok(i) => panic!("Should not load successfully, install_ident={}", i.to_string()),
    }
}

#[test]
fn load_at_least_with_fuzzy_ident_with_multiple_packages_only_one_matching_target() {
    let mut store = new_store();

    // This installed package is older but matching the active package target
    let matching_ident_s = "dream-theater/systematic-chaos/1.1.1/20180704142702";
    let matching_pkg_install = testing_package_install(&mut store, matching_ident_s);
    write_metafile(&mut store, &matching_pkg_install, MetaFile::Target, active_target().as_str());

    // This installed package is newer but does not match the active package target
    let wrong_ident_s = "dream-theater/systematic-chaos/5.5.5/20180704142702";
    let wrong_pkg_install = testing_package_install(&mut store, wrong_ident_s);
    write_metafile(&mut store, &wrong_pkg_install, MetaFile::Target, wrong_package_target().as_str());

    let loaded = PackageInstall::load_at_least(
        &Ident::from_str("dream-theater/systematic-chaos").unwrap(),
        Some(FS_ROOT),
        &store,
    )
    .unwrap();
    assert_eq!(matching_pkg_install, loaded);
    assert_eq!(active_target(), loaded.target(&store).unwrap());
}

#[test]
fn load_at_least_with_missing_target_returns_package_not_found_err() {
    let mut store = new_store();
    let ident_s = "dream-theater/systematic-chaos/1.2.3/20180704142702";
    let pkg_install = testing_package_install(&mut store, ident_s);
    remove_metafile(&mut store, &pkg_install, MetaFile::Target);
    let ident = Ident::from_str(ident_s).unwrap();

    match PackageInstall::load_at_least(&ident, Some(FS_ROOT), &store) {
        Err(Error::PackageNotFound(ref err_ident)) => {
            assert_eq!(&ident, err_ident);
        }
        Err(e) => panic!("Wrong error returned, error={:?}", e),
        Ok(i) => panic!("Should not load successfully, install_ident={}", i.to_string()),
    }
}

#[test]
fn load_at_least_with_malformed_target_returns_package_not_found_err() {
    let mut store = new_store();
    let ident_s = "dream-theater/systematic-chaos/1.2.3/20180704142702";
    let pkg_install = testing_package_install(&mut store, ident_s);
    write_metafile(&mut store, &pkg_install, MetaFile::Target, "NOT_A_TARGET_EVER");
    let ident = Ident::from_str(ident_s).unwrap();

    match PackageInstall::load_at_least(&ident, Some(FS_ROOT), &store) {
        Err(Error::PackageNotFound(ref err_ident)) => {
            assert_eq!(&ident, err_ident);
        }
        Err(e) => panic!("Wrong error returned, error={:?}", e),
        Ok(i) => panic!("Should not load successfully, install_ident={}", i.to_string()),
    }
}

#[test]
fn paths_metafile_single() {
    let mut store = new_store();
    let pkg_install = testing_package_install(&mut store, "acme/pathy");
    set_path_for(&mut store, &pkg_install, vec!["bin"]);

    assert_eq!(
        vec![join(&pkg_prefix_for(&pkg_install), "bin")],
        pkg_install.paths(&store).unwrap()
    );
}

#[test]
fn paths_metafile_multiple() {
    let mut store = new_store();
    let pkg_install = testing_package_install(&mut store, "acme/pathy");
    set_path_for(&mut store, &pkg_install, vec!["bin", "sbin", ".gem/bin"]);

    let pkg_prefix = pkg_prefix_for(&pkg_install);

    assert_eq!(
        vec![
            join(&pkg_prefix, "bin"),
            join(&pkg_prefix, "sbin"),
            join(&pkg_prefix, ".gem/bin"),
        ],
        pkg_install.paths(&store).unwrap()
    );
}

#[test]
fn paths_metafile_missing() {
    let mut store = new_store();
    let pkg_install = testing_package_install(&mut store, "acme/pathy");

    assert_eq!(Vec::<String>::new(), pkg_install.paths(&store).unwrap());
}

#[test]
fn paths_metafile_empty() {
    let mut store = new_store();
    let pkg_install = testing_package_install(&mut store, "acme/pathy");

    // A `PATH` metafile that holds nothing
    write_metafile(&mut store, &pkg_install, MetaFile::Path, "");

    assert_eq!(Vec::<String>::new(), pkg_install.paths(&store).unwrap());
}

#[test]
fn paths_metafile_drop_extra_entries() {
    let mut store = new_store();
    let pkg_install = testing_package_install(&mut store, "acme/pathy");
    let other_pkg_install = testing_package_install(&mut store, "acme/prophets-of-rage");

    // A `PATH` metafile which has path entries from another package, as
    // certain older packages have
    let entries = vec![
        join(&pkg_prefix_for(&pkg_install), "bin"),
        join(&pkg_prefix_for(&other_pkg_install), "bin"),
        join(&pkg_prefix_for(&other_pkg_install), "sbin"),
    ];
    write_metafile(&mut store, &pkg_install, MetaFile::Path, &entries.join(":"));

    assert_eq!(
        vec![join(&pkg_prefix_for(&pkg_install), "bin")],
        pkg_install.paths(&store).unwrap()
    );
}

#[test]
fn win_legacy_paths_metafile_missing_with_runtime_metafile() {
    let mut store = PackageStore::new(PackageTarget::X86_64Windows);
    let ident = ReleaseIdent::from_raw_parts("acme", "pathy", "1.0.0", RELEASE).unwrap();
    let other = ReleaseIdent::from_raw_parts("acme", "prophets-of-rage", "1.0.0", RELEASE).unwrap();
    for release in [&ident, &other] {
        let mut package = InstalledPackage::new(release.clone());
        package.write(MetaFile::Target, FileContent::Text("x86_64-windows".to_string()));
        store.packages.push(package);
    }
    let pkg_install = PackageInstall::load(&Ident::Release(ident), Some(FS_ROOT), &store).unwrap();
    let other_pkg_install =
        PackageInstall::load(&Ident::Release(other), Some(FS_ROOT), &store).unwrap();

    // A `RUNTIME_ENVIRONMENT` metafile which has path entries from another
    // package, as certain older packages have
    let entries = vec![
        join(&pkg_prefix_for(&pkg_install), "bin"),
        join(&pkg_prefix_for(&other_pkg_install), "bin"),
        join(&pkg_prefix_for(&other_pkg_install), "sbin"),
    ];
    write_metafile(
        &mut store,
        &pkg_install,
        MetaFile::RuntimeEnvironment,
        &format!("PATH={}\n", entries.join(";")),
    );

    assert_eq!(
        vec![join(&pkg_prefix_for(&pkg_install), "bin")],
        pkg_install.paths(&store).unwrap()
    );

    // On other hosts the runtime environment is not looked at.
    store.active_target = PackageTarget::X86_64Linux;
    assert_eq!(Vec::<String>::new(), pkg_install.paths(&store).unwrap());
}

#[test]
fn runtime_paths_single_package_single_path() {
    let mut store = new_store();
    let pkg_install = testing_package_install(&mut store, "acme/pathy");
    set_path_for(&mut store, &pkg_install, vec!["bin"]);
    set_runtime_path_for(&mut store, &pkg_install, vec![&pkg_install]);

    assert_eq!(
        vec![join(&pkg_prefix_for(&pkg_install), "bin")],
        pkg_install.runtime_paths(&store).unwrap()
    );
}

#[test]
fn runtime_paths_single_package_multiple_paths() {
    let mut store = new_store();
    let pkg_install = testing_package_install(&mut store, "acme/pathy");
    set_path_for(&mut store, &pkg_install, vec!["sbin", ".gem/bin", "bin"]);
    set_runtime_path_for(&mut store, &pkg_install, vec![&pkg_install]);

    let pkg_prefix = pkg_prefix_for(&pkg_install);

    assert_eq!(
        vec![
            join(&pkg_prefix, "sbin"),
            join(&pkg_prefix, ".gem/bin"),
            join(&pkg_prefix, "bin"),
        ],
        pkg_install.runtime_paths(&store).unwrap()
    );
}

#[test]
fn runtime_paths_multiple_packages() {
    let mut store = new_store();

    let other_pkg_install = testing_package_install(&mut store, "acme/ty-tabor");
    set_path_for(&mut store, &other_pkg_install, vec!["sbin"]);

    let pkg_install = testing_package_install(&mut store, "acme/pathy");
    set_path_for(&mut store, &pkg_install, vec!["bin"]);
    set_runtime_path_for(&mut store, &pkg_install, vec![&pkg_install, &other_pkg_install]);

    assert_eq!(
        vec![
            join(&pkg_prefix_for(&pkg_install), "bin"),
            join(&pkg_prefix_for(&other_pkg_install), "sbin"),
        ],
        pkg_install.runtime_paths(&store).unwrap()
    );
}

// This test uses the fallback that puts the runtime path together
#[test]
fn runtime_paths_metafile_missing_with_path_metafiles() {
    let mut store = new_store();

    let other_pkg_install = testing_package_install(&mut store, "acme/ty-tabor");
    set_path_for(&mut store, &other_pkg_install, vec!["sbin"]);

    let pkg_install = testing_package_install(&mut store, "acme/pathy");
    set_path_for(&mut store, &pkg_install, vec!["bin"]);
    set_deps_for(&mut store, &pkg_install, vec![&other_pkg_install]);
    set_tdeps_for(&mut store, &pkg_install, vec![&other_pkg_install]);

    assert_eq!(
        vec![
            join(&pkg_prefix_for(&pkg_install), "bin"),
            join(&pkg_prefix_for(&other_pkg_install), "sbin"),
        ],
        pkg_install.runtime_paths(&store).unwrap()
    );
}

#[test]
fn runtime_paths_metafile_empty() {
    let mut store = new_store();
    let pkg_install = testing_package_install(&mut store, "acme/pathy");
    // A `PATH` metafile should *not* influence this test
    set_path_for(&mut store, &pkg_install, vec!["nope"]);

    // A `RUNTIME_PATH` metafile that holds nothing
    write_metafile(&mut store, &pkg_install, MetaFile::RuntimePath, "");

    assert_eq!(Vec::<String>::new(), pkg_install.runtime_paths(&store).unwrap());
}

// The order of the entries of a runtime `PATH` for packages that lack a
// `RUNTIME_PATH` metafile.
#[test]
fn legacy_runtime_paths() {
    fn paths_for(pkg_install: &PackageInstall, store: &PackageStore) -> Vec<String> {
        pkg_install.paths(store).unwrap()
    }

    let mut store = new_store();

    let hotel = testing_package_install(&mut store, "acme/hotel");
    set_path_for(&mut store, &hotel, vec!["bin"]);

    let golf = testing_package_install(&mut store, "acme/golf");
    set_path_for(&mut store, &golf, vec!["bin"]);

    let foxtrot = testing_package_install(&mut store, "acme/foxtrot");
    set_path_for(&mut store, &foxtrot, vec!["bin"]);

    let echo = testing_package_install(&mut store, "acme/echo");
    set_deps_for(&mut store, &echo, vec![&foxtrot]);
    set_tdeps_for(&mut store, &echo, vec![&foxtrot]);

    let delta = testing_package_install(&mut store, "acme/delta");
    set_deps_for(&mut store, &delta, vec![&echo]);
    set_tdeps_for(&mut store, &delta, vec![&echo, &foxtrot]);

    let charlie = testing_package_install(&mut store, "acme/charlie");
    set_path_for(&mut store, &charlie, vec!["sbin"]);
    set_deps_for(&mut store, &charlie, vec![&golf, &delta]);
    set_tdeps_for(&mut store, &charlie, vec![&delta, &echo, &foxtrot, &golf]);

    let beta = testing_package_install(&mut store, "acme/beta");
    set_path_for(&mut store, &beta, vec!["bin"]);
    set_deps_for(&mut store, &beta, vec![&delta]);
    set_tdeps_for(&mut store, &beta, vec![&delta, &echo, &foxtrot]);

    let alpha = testing_package_install(&mut store, "acme/alpha");
    set_path_for(&mut store, &alpha, vec!["sbin", ".gem/bin", "bin"]);
    set_deps_for(&mut store, &alpha, vec![&charlie, &hotel, &beta]);
    set_tdeps_for(
        &mut store,
        &alpha,
        vec![&beta, &charlie, &delta, &echo, &foxtrot, &golf, &hotel],
    );

    let mut expected = Vec::new();
    expected.append(&mut paths_for(&alpha, &store));
    expected.append(&mut paths_for(&charlie, &store));
    expected.append(&mut paths_for(&hotel, &store));
    expected.append(&mut paths_for(&beta, &store));
    expected.append(&mut paths_for(&foxtrot, &store));
    expected.append(&mut paths_for(&golf, &store));

    assert_eq!(expected, alpha.legacy_runtime_paths(&store).unwrap());
    assert_eq!(
        vec![
            "/hab/pkgs/acme/alpha/1.0.0/20180704142702/sbin",
            "/hab/pkgs/acme/alpha/1.0.0/20180704142702/.gem/bin",
            "/hab/pkgs/acme/alpha/1.0.0/20180704142702/bin",
            "/hab/pkgs/acme/charlie/1.0.0/20180704142702/sbin",
            "/hab/pkgs/acme/hotel/1.0.0/20180704142702/bin",
            "/hab/pkgs/acme/beta/1.0.0/20180704142702/bin",
            "/hab/pkgs/acme/foxtrot/1.0.0/20180704142702/bin",
            "/hab/pkgs/acme/golf/1.0.0/20180704142702/bin",
        ],
        alpha.legacy_runtime_paths(&store).unwrap()
    );
}

#[test]
fn environment_for_command_missing_all_metafiles() {
    let mut store = new_store();
    let pkg_install = testing_package_install(&mut store, "acme/pathy");

    assert_eq!(
        HashMap::<String, String>::new(),
        as_hash_map(&pkg_install.environment_for_command(&store).unwrap())
    );
}

#[test]
fn environment_for_command_with_runtime_environment_with_no_path() {
    let mut store = new_store();
    let pkg_install = testing_package_install(&mut store, "acme/pathy");

    // A `RUNTIME_ENVIRONMENT` metafile including a `PATH` key which should be ignored
    write_metafile(
        &mut store,
        &pkg_install,
        MetaFile::RuntimeEnvironment,
        "PATH=/should/be/ignored\nJAVA_HOME=/my/java/home\nFOO=bar\n",
    );

    let mut expected = HashMap::new();
    expected.insert("FOO".to_string(), "bar".to_string());
    expected.insert("JAVA_HOME".to_string(), "/my/java/home".to_string());

    assert_eq!(
        expected,
        as_hash_map(&pkg_install.environment_for_command(&store).unwrap())
    );
}

#[test]
fn environment_for_command_with_runtime_environment_with_path() {
    let mut store = new_store();

    let other_pkg_install = testing_package_install(&mut store, "acme/ty-tabor");
    set_path_for(&mut store, &other_pkg_install, vec!["sbin"]);

    let pkg_install = testing_package_install(&mut store, "acme/pathy");
    set_path_for(&mut store, &pkg_install, vec!["bin"]);
    set_runtime_path_for(&mut store, &pkg_install, vec![&pkg_install, &other_pkg_install]);

    // A `RUNTIME_ENVIRONMENT` metafile including a `PATH` key which should be ignored
    write_metafile(
        &mut store,
        &pkg_install,
        MetaFile::RuntimeEnvironment,
        "PATH=/should/be/ignored\nJAVA_HOME=/my/java/home\nFOO=bar\n",
    );

    let mut expected = HashMap::new();
    expected.insert("FOO".to_string(), "bar".to_string());
    expected.insert("JAVA_HOME".to_string(), "/my/java/home".to_string());
    expected.insert(
        "PATH".to_string(),
        vec![
            join(&pkg_prefix_for(&pkg_install), "bin"),
            join(&pkg_prefix_for(&other_pkg_install), "sbin"),
        ]
        .join(":"),
    );

    let env = pkg_install.environment_for_command(&store).unwrap();
    assert_eq!(expected, as_hash_map(&env));
    assert_eq!(
        Some(&pkg_install.runtime_paths(&store).unwrap().join(":")),
        env.get("PATH")
    );
}

// What the library adds to the above

#[test]
fn can_read_default_config() {
    let mut store = new_store();
    let package_install = testing_package_install(&mut store, "just/nothing");
    assert!(package_install.default_cfg(&store).is_none());

    package_of(&mut store, &package_install).default_cfg =
        Some("port = 8080\n[server]\nname = \"nothing\"\n".to_string());
    let cfg = package_install.default_cfg(&store).unwrap();
    assert_eq!(Some(8080), cfg.get("port").and_then(|p| p.as_integer()));
    assert_eq!(
        Some("nothing"),
        cfg.get("server").and_then(|s| s.get("name")).and_then(|n| n.as_str())
    );
    assert!(toml::ser::to_string(&cfg).is_ok());

    package_of(&mut store, &package_install).default_cfg = Some("port = = 8080".to_string());
    assert!(package_install.default_cfg(&store).is_none());
}

#[test]
fn environment_for_has_a_path_where_there_are_runtime_paths() {
    let mut env = KeyValueMap::new();
    env.insert("PATH".to_string(), "/ignored".to_string());
    env.insert("JAVA_HOME".to_string(), "/j".to_string());
    env.insert("FOO".to_string(), "bar".to_string());
    let paths = vec!["/a/bin".to_string(), "/b/bin".to_string()];

    let with_paths = environment_for(env, &paths, ':').unwrap();
    let mut expected = HashMap::new();
    expected.insert("FOO".to_string(), "bar".to_string());
    expected.insert("JAVA_HOME".to_string(), "/j".to_string());
    expected.insert("PATH".to_string(), "/a/bin:/b/bin".to_string());
    assert_eq!(expected, as_hash_map(&with_paths));

    let without_paths = environment_for(with_paths, &Vec::new(), ':').unwrap();
    assert!(!without_paths.contains_key("PATH"));
    assert_eq!(Some(&"bar".to_string()), without_paths.get("FOO"));

    let mut env = KeyValueMap::new();
    env.insert("FOO".to_string(), "bar".to_string());
    assert!(matches!(
        environment_for(env, &vec!["/a:b".to_string()], ':'),
        Err(Error::InvalidPathString)
    ));
}

#[test]
fn load_takes_the_newest_release_that_answers() {
    let mut store = new_store();
    for ident in [
        "core/redis/3.2.1/20180101000000",
        "core/redis/3.10.0/20170101000000",
        "core/redis/3.10.0/20170202000000",
        "core/redis/3.9.9/20190101000000",
        "core/nginx/9.9.9/20190101000000",
        "acme/redis/4.0.0/20190101000000",
    ] {
        testing_package_install(&mut store, ident);
    }

    let loaded = PackageInstall::load(&Ident::from_str("core/redis").unwrap(), None, &store).unwrap();
    assert_eq!("core/redis/3.10.0/20170202000000", loaded.to_string());
    assert_eq!("/hab/pkgs/core/redis/3.10.0/20170202000000", loaded.installed_path());

    let loaded =
        PackageInstall::load(&Ident::from_str("core/redis/3.2.1").unwrap(), None, &store).unwrap();
    assert_eq!("core/redis/3.2.1/20180101000000", loaded.to_string());

    let loaded = PackageInstall::load(
        &Ident::from_str("core/redis/3.10.0/20170101000000").unwrap(),
        Some("/mnt"),
        &store,
    )
    .unwrap();
    assert_eq!("core/redis/3.10.0/20170101000000", loaded.to_string());
    assert_eq!("/mnt", loaded.fs_root_path);
    assert_eq!("/mnt/hab/pkgs", loaded.package_root_path);
    assert_eq!("/mnt/hab/pkgs/core/redis/3.10.0/20170101000000", loaded.installed_path);

    for missing in ["core/redis/3.3", "core/redis/3.2.1/2018", "core/mysql", "bcme/redis"] {
        let ident = Ident::from_str(missing).unwrap();
        match PackageInstall::load(&ident, None, &store) {
            Err(Error::PackageNotFound(ref err_ident)) => assert_eq!(&ident, err_ident),
            other => panic!("{} should not be found, got {:?}", missing, other),
        }
    }
    assert!(PackageInstall::load(&Ident::from_str("core/redis").unwrap(), None, &new_store()).is_err());
}

#[test]
fn load_keeps_the_first_of_equal_releases() {
    let mut store = new_store();
    testing_package_install(&mut store, "core/redis/1.2/2018");
    testing_package_install(&mut store, "core/redis/1.2.0/2018");

    let loaded = PackageInstall::load(&Ident::from_str("core/redis").unwrap(), None, &store).unwrap();
    assert_eq!("core/redis/1.2/2018", loaded.to_string());
}

#[test]
fn load_passes_over_unfinished_installs() {
    let mut store = new_store();
    testing_package_install(&mut store, "core/redis/3.2.1/20180101000000");
    let unfinished =
        ReleaseIdent::from_raw_parts("core", "redis", "9.9.9", ".hab-pkg-install-abc123").unwrap();
    let mut package = InstalledPackage::new(unfinished.clone());
    package.write(MetaFile::Target, FileContent::Text("x86_64-linux".to_string()));
    assert!(!package.is_visible(active_target()));
    store.packages.push(package);

    assert_eq!(1, store.package_list().len());
    let loaded = PackageInstall::load(&Ident::from_str("core/redis").unwrap(), None, &store).unwrap();
    assert_eq!("core/redis/3.2.1/20180101000000", loaded.to_string());
    assert!(PackageInstall::load(&Ident::Release(unfinished), None, &store).is_err());
}

#[test]
fn load_passes_over_targets_that_cannot_be_read() {
    let mut store = new_store();
    let install = testing_package_install(&mut store, "core/redis/3.2.1/20180101000000");
    let ident = Ident::from_str("core/redis").unwrap();

    package_of(&mut store, &install).write(MetaFile::Target, FileContent::Unreadable("denied".to_string()));
    assert!(PackageInstall::load(&ident, None, &store).is_err());
    assert!(matches!(install.target(&store), Err(Error::MetaFileIO(ref why)) if why == "denied"));

    package_of(&mut store, &install).write(MetaFile::Target, FileContent::NotText);
    assert!(PackageInstall::load(&ident, None, &store).is_err());
    assert!(matches!(
        install.target(&store),
        Err(Error::MetaFileMalformed(MetaFile::Target))
    ));

    package_of(&mut store, &install).write(MetaFile::Target, FileContent::Text("  x86_64-linux \n".to_string()));
    assert!(PackageInstall::load(&ident, None, &store).is_ok());
}

#[test]
fn load_at_least_takes_the_newest_that_is_no_older() {
    let mut store = new_store();
    for ident in [
        "core/redis/3.2.1/20180101000000",
        "core/redis/3.10.0/20170101000000",
        "core/redis/3.9.9/20190101000000",
        "acme/redis/9.0.0/20190101000000",
    ] {
        testing_package_install(&mut store, ident);
    }

    for query in ["core/redis", "core/redis/3.2.1", "core/redis/3.10.0", "core/redis/3.10.0/20170101000000"] {
        let loaded =
            PackageInstall::load_at_least(&Ident::from_str(query).unwrap(), None, &store).unwrap();
        assert_eq!("core/redis/3.10.0/20170101000000", loaded.to_string());
    }
    for query in ["core/redis/3.10.1", "core/redis/3.10.0/20170101000001", "core/redis/4", "core/nginx"] {
        let ident = Ident::from_str(query).unwrap();
        match PackageInstall::load_at_least(&ident, None, &store) {
            Err(Error::PackageNotFound(ref err_ident)) => assert_eq!(&ident, err_ident),
            other => panic!("{} should not be met, got {:?}", query, other),
        }
    }
}

#[test]
fn metafiles_of_a_package() {
    let mut store = new_store();
    let install = testing_package_install(&mut store, "core/redis");

    assert_eq!(PackageType::Standalone, install.pkg_type(&store).unwrap());
    assert_eq!(None, install.svc_user(&store).unwrap());
    assert_eq!(None, install.svc_group(&store).unwrap());
    assert!(install.binds(&store).unwrap().is_empty());
    assert!(install.binds_optional(&store).unwrap().is_empty());
    assert!(install.all_binds(&store).unwrap().is_empty());
    assert!(install.exposes(&store).unwrap().is_empty());
    assert!(install.exports(&store).unwrap().pairs.is_empty());
    assert!(install.pkg_services(&store).unwrap().is_empty());
    assert!(install.deps(&store).unwrap().is_empty());
    assert!(install.tdeps(&store).unwrap().is_empty());
    assert!(!install.is_runnable(&store));

    write_metafile(&mut store, &install, MetaFile::Type, "Composite\n");
    write_metafile(&mut store, &install, MetaFile::SvcUser, "hab\n");
    write_metafile(&mut store, &install, MetaFile::SvcGroup, " hab-group ");
    write_metafile(&mut store, &install, MetaFile::Binds, "db:core/postgres\ncache:core/redis/3\n");
    write_metafile(&mut store, &install, MetaFile::BindsOptional, "log:core/logger\n");
    write_metafile(&mut store, &install, MetaFile::Exposes, "8080 8443\n");
    write_metafile(&mut store, &install, MetaFile::Exports, "port=server.port\nurl=a=b\n");
    write_metafile(&mut store, &install, MetaFile::Services, "core/a\n\ncore/b/1.0\ncore/c/1.0/2018\n");
    write_metafile(&mut store, &install, MetaFile::Deps, "core/a/1.0/2018\ncore/b/1.0/2018\n");
    package_of(&mut store, &install).run_hook = true;

    assert_eq!(PackageType::Composite, install.pkg_type(&store).unwrap());
    assert_eq!(Some("hab".to_string()), install.svc_user(&store).unwrap());
    assert_eq!(Some("hab-group".to_string()), install.svc_group(&store).unwrap());
    let binds = install.binds(&store).unwrap();
    assert_eq!(2, binds.len());
    assert_eq!("db", binds[0].name);
    assert_eq!(Ident::from_str("core/postgres").unwrap(), binds[0].ident);
    assert_eq!("cache", binds[1].name);
    assert_eq!(Ident::from_str("core/redis/3").unwrap(), binds[1].ident);
    let all = install.all_binds(&store).unwrap();
    assert_eq!(3, all.len());
    assert_eq!("log", all[2].name);
    assert_eq!(vec!["8080", "8443"], install.exposes(&store).unwrap());
    let exports = install.exports(&store).unwrap();
    assert_eq!(Some(&"server.port".to_string()), exports.get("port"));
    assert_eq!(Some(&"a=b".to_string()), exports.get("url"));
    assert_eq!(
        vec![
            Ident::from_str("core/a").unwrap(),
            Ident::from_str("core/b/1.0").unwrap(),
            Ident::from_str("core/c/1.0/2018").unwrap(),
        ],
        install.pkg_services(&store).unwrap()
    );
    assert_eq!(
        vec![
            Ident::from_str("core/a/1.0/2018").unwrap(),
            Ident::from_str("core/b/1.0/2018").unwrap(),
        ],
        install.deps(&store).unwrap()
    );
    assert!(install.is_runnable(&store));
}

#[test]
fn malformed_metafiles_are_errors() {
    let mut store = new_store();
    let install = testing_package_install(&mut store, "core/redis");

    write_metafile(&mut store, &install, MetaFile::Type, "Sideways");
    assert!(matches!(
        install.pkg_type(&store),
        Err(Error::InvalidPackageType(ref val)) if val == "Sideways"
    ));
    write_metafile(&mut store, &install, MetaFile::Binds, "db:core/postgres\nnope\n");
    assert!(matches!(
        install.binds(&store),
        Err(Error::MetaFileMalformed(MetaFile::Binds))
    ));
    assert!(matches!(
        install.all_binds(&store),
        Err(Error::MetaFileMalformed(MetaFile::Binds))
    ));
    write_metafile(&mut store, &install, MetaFile::Binds, "db:core/postgres\n");
    write_metafile(&mut store, &install, MetaFile::BindsOptional, "db:postgres\n");
    assert!(matches!(
        install.all_binds(&store),
        Err(Error::MetaFileMalformed(MetaFile::BindsOptional))
    ));
    write_metafile(&mut store, &install, MetaFile::Exports, "port=server.port\nurl\n");
    assert!(matches!(
        install.exports(&store),
        Err(Error::MetaFileMalformed(MetaFile::Exports))
    ));
    write_metafile(&mut store, &install, MetaFile::RuntimeEnvironment, "FOO=bar\n\nBAR=baz\n");
    assert!(matches!(
        install.environment_for_command(&store),
        Err(Error::MetaFileMalformed(MetaFile::RuntimeEnvironment))
    ));
    write_metafile(&mut store, &install, MetaFile::Deps, "core/a/1.0/2018\ncore/b/1.0\n");
    assert!(matches!(
        install.deps(&store),
        Err(Error::FullyQualifiedPackageIdentRequired(ref val)) if val == "core/b/1.0"
    ));
    write_metafile(&mut store, &install, MetaFile::TDeps, "core/a/1.0/2018\nnot-an-ident\n");
    assert!(matches!(
        install.tdeps(&store),
        Err(Error::InvalidPackageIdent(ref val)) if val == "not-an-ident"
    ));
    package_of(&mut store, &install).write(MetaFile::SvcUser, FileContent::Unreadable("why".to_string()));
    assert!(matches!(install.svc_user(&store), Err(Error::MetaFileIO(ref val)) if val == "why"));
    package_of(&mut store, &install).write(MetaFile::SvcGroup, FileContent::NotText);
    assert!(matches!(
        install.svc_group(&store),
        Err(Error::MetaFileMalformed(MetaFile::SvcGroup))
    ));
    assert!(matches!(
        store.read_metafile(install.ident(), MetaFile::Exposes),
        Err(Error::MetaFileNotFound(MetaFile::Exposes))
    ));
}

#[test]
fn legacy_runtime_paths_need_the_dependencies() {
    let mut store = new_store();
    let install = testing_package_install(&mut store, "acme/pathy");
    set_path_for(&mut store, &install, vec!["bin"]);
    write_metafile(&mut store, &install, MetaFile::Deps, "acme/gone/1.0.0/2018\n");

    let missing = Ident::from_str("acme/gone/1.0.0/2018").unwrap();
    match install.legacy_runtime_paths(&store) {
        Err(Error::PackageNotFound(ref ident)) => assert_eq!(&missing, ident),
        other => panic!("a missing dependency should be an error, got {:?}", other),
    }
    assert!(install.load_deps(&store).is_err());
    assert!(install.load_tdeps(&store).unwrap().is_empty());

    let other = testing_package_install(&mut store, "acme/gone/1.0.0/2018");
    assert_eq!(vec![other.clone()], install.load_deps(&store).unwrap());
    set_path_for(&mut store, &other, vec!["bin"]);
    set_tdeps_for(&mut store, &install, vec![&other, &install]);
    assert_eq!(
        vec![
            join(&pkg_prefix_for(&install), "bin"),
            join(&pkg_prefix_for(&other), "bin"),
        ],
        install.legacy_runtime_paths(&store).unwrap()
    );
}

#[test]
fn new_from_parts_keeps_the_parts() {
    let ident = ReleaseIdent::from_str("core/redis/3.2.1/2018").unwrap();
    let install = PackageInstall::new_from_parts(
        ident.clone(),
        "/".to_string(),
        "/hab/pkgs".to_string(),
        "/hab/pkgs/core/redis/3.2.1/2018".to_string(),
    );

    assert_eq!(&ident, install.ident());
    assert_eq!("/hab/pkgs/core/redis/3.2.1/2018", install.installed_path());
    assert_eq!("core/redis/3.2.1/2018", install.to_string());

    let mut store = new_store();
    assert_eq!(install, testing_package_install(&mut store, "core/redis/3.2.1/2018"));
}

#[test]
fn load_goes_through_the_releases_in_their_order() {
    // Where versions are no numbers that fit, the newest need not be the
    // greatest: each release is only compared with the one that was kept.
    let mut store = new_store();
    testing_package_install(&mut store, "core/redis/9/2018");
    testing_package_install(&mut store, "core/redis/10/2018");
    testing_package_install(&mut store, "core/redis/18446744073709551616/2018");

    let loaded = PackageInstall::load(&Ident::from_str("core/redis").unwrap(), None, &store).unwrap();
    assert_eq!("core/redis/18446744073709551616/2018", loaded.to_string());

    let mut store = new_store();
    testing_package_install(&mut store, "core/redis/10/2018");
    testing_package_install(&mut store, "core/redis/18446744073709551616/2018");
    testing_package_install(&mut store, "core/redis/9/2018");

    let loaded = PackageInstall::load(&Ident::from_str("core/redis").unwrap(), None, &store).unwrap();
    assert_eq!("core/redis/9/2018", loaded.to_string());
}
