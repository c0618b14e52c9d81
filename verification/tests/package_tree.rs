use simi::package::{PackageManifest, PackageModule};
use simi::package_tree::{LocalPackageSource, PackageSource, PackageTree, PackageTreeError};

fn manifest() -> PackageManifest {
    PackageManifest::new(
        "tools".to_owned(),
        "1".to_owned(),
        vec!["tools/zip".to_owned(), "tools".to_owned(), "tools/io".to_owned()],
        None,
    )
    .unwrap()
}

fn public(name: &str, source: &str) -> PackageSource {
    PackageSource::new(PackageModule::new(name.to_owned(), "tools").unwrap(), source.to_owned())
}

fn tree() -> PackageTree {
    PackageTree::from_sources(
        "/work/tools".to_owned(),
        manifest(),
        "{name=\"tools\"}".to_owned(),
        vec![public("tools/zip", "zip"), public("tools", "root"), public("tools/io", "io")],
        vec![
            LocalPackageSource::new("tools/private/b.simi".to_owned(), "b".to_owned()),
            LocalPackageSource::new("tools/private/a.simi".to_owned(), "a".to_owned()),
        ],
    )
}

#[test]
fn public_sources_come_in_source_path_order() {
    let tree = tree();
    let paths: Vec<&str> = tree.modules().iter().map(|m| m.module().source_path()).collect();
    assert_eq!(paths, vec!["tools.simi", "tools/io.simi", "tools/zip.simi"]);
    assert_eq!(tree.modules()[1].source(), "io");
    assert_eq!(tree.root(), "/work/tools");
    assert_eq!(tree.manifest().name(), "tools");
}

#[test]
fn digest_inputs_put_the_manifest_first_then_sources_by_path() {
    let tree = tree();
    let files = tree.digest_inputs();
    let paths: Vec<&str> = files.iter().map(|f| f.path).collect();
    assert_eq!(
        paths,
        vec![
            "simi.package.simi",
            "tools.simi",
            "tools/io.simi",
            "tools/zip.simi",
            "tools/private/a.simi",
            "tools/private/b.simi",
        ]
    );
    assert_eq!(files[0].bytes, b"{name=\"tools\"}");
    assert_eq!(files[2].bytes, b"io");
    assert_eq!(files[4].bytes, b"a");
}

#[test]
fn path_order_is_by_code_point_and_prefixes_come_first() {
    let tree = PackageTree::from_sources(
        "/r".to_owned(),
        manifest(),
        String::new(),
        Vec::new(),
        vec![
            LocalPackageSource::new("b".to_owned(), "é".to_owned()),
            LocalPackageSource::new("ab".to_owned(), String::new()),
            LocalPackageSource::new("a".to_owned(), String::new()),
            LocalPackageSource::new("B".to_owned(), String::new()),
        ],
    );
    let paths: Vec<&str> = tree.local_sources().iter().map(|s| s.source_path()).collect();
    assert_eq!(paths, vec!["B", "a", "ab", "b"]);
    let files = tree.digest_inputs();
    assert_eq!(files.len(), 5);
    assert_eq!(files[4].bytes, "é".as_bytes());
}

#[test]
fn tree_errors_keep_their_message() {
    let error = PackageTreeError::new("package root is missing or unreadable".to_owned());
    assert_eq!(error.text(), "package root is missing or unreadable");
}

#[test]
fn digest_inputs_do_not_depend_on_discovery_order() {
    let first = tree();
    let second = PackageTree::from_sources(
        "/work/tools".to_owned(),
        manifest(),
        "{name=\"tools\"}".to_owned(),
        vec![public("tools/io", "io"), public("tools/zip", "zip"), public("tools", "root")],
        vec![
            LocalPackageSource::new("tools/private/a.simi".to_owned(), "a".to_owned()),
            LocalPackageSource::new("tools/private/b.simi".to_owned(), "b".to_owned()),
        ],
    );
    assert_eq!(first.digest_inputs(), second.digest_inputs());
    assert_eq!(first, second);
}

#[test]
fn a_path_is_kept_once_with_its_first_source() {
    let tree = PackageTree::from_sources(
        "/r".to_owned(),
        manifest(),
        String::new(),
        vec![public("tools", "first"), public("tools", "second")],
        vec![
            LocalPackageSource::new("b".to_owned(), "one".to_owned()),
            LocalPackageSource::new("a".to_owned(), "x".to_owned()),
            LocalPackageSource::new("b".to_owned(), "two".to_owned()),
        ],
    );
    assert_eq!(tree.modules().len(), 1);
    assert_eq!(tree.modules()[0].source(), "first");
    let locals: Vec<(&str, &str)> = tree.local_sources().iter().map(|s| (s.source_path(), s.source())).collect();
    assert_eq!(locals, vec![("a", "x"), ("b", "one")]);
    let files = tree.digest_inputs();
    assert!(files.windows(2).skip(1).all(|w| w[0].path != w[1].path));
}
