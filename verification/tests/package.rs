use simi::package::{
    local_source_path, validate_module_name, validate_package_name, validate_relative_path,
    CatalogModule, CatalogModuleVisibility, NativePackage, PackageManifest, PackageModule,
};

fn strings(values: &[&str]) -> Vec<String> {
    values.iter().map(|v| v.to_string()).collect()
}

#[test]
fn package_names_are_lowercase_components() {
    assert!(validate_package_name("polars").is_ok());
    assert!(validate_package_name("a1-b").is_ok());
    let error = validate_package_name("Polars").unwrap_err();
    assert_eq!(error.text(), "package metadata name `Polars` must be a lowercase module component");
    assert!(validate_package_name("").is_err());
    assert!(validate_package_name("1abc").is_err());
    assert!(validate_package_name("a_b").is_err());
}

#[test]
fn module_names_live_under_their_package() {
    assert!(validate_module_name("polars", "polars").is_ok());
    assert!(validate_module_name("polars/csv", "polars").is_ok());
    let error = validate_module_name("pandas", "polars").unwrap_err();
    assert_eq!(
        error.text(),
        "public module `pandas` must equal package `polars` or begin `polars/`"
    );
    let error = validate_module_name("polars//csv", "polars").unwrap_err();
    assert_eq!(
        error.text(),
        "public module `polars//csv` must contain only lowercase module components"
    );
}

#[test]
fn relative_paths_refuse_traversal() {
    assert!(validate_relative_path("src/a.simi", "path").is_ok());
    for path in ["", "/abs", "a\\b", "a//b", "./a", "a/../b", "a/"] {
        let error = validate_relative_path(path, "path").unwrap_err();
        assert_eq!(error.text(), "path must be a package-root-relative slash-separated path");
    }
}

#[test]
fn local_imports_resolve_beside_their_source() {
    assert_eq!(local_source_path("tools.simi", "./util.simi").unwrap(), "util.simi");
    assert_eq!(local_source_path("tools/io.simi", "./util.simi").unwrap(), "tools/util.simi");
    assert_eq!(local_source_path("a/b/c.simi", "./d/e.simi").unwrap(), "a/b/d/e.simi");
    assert_eq!(local_source_path("a.simi", "util.simi").unwrap_err(), "must begin with `./`");
    assert_eq!(
        local_source_path("a.simi", "./../x").unwrap_err(),
        "must be a non-empty slash-separated path without traversal"
    );
    assert!(local_source_path("a.simi", "./").is_err());
}

#[test]
fn catalog_modules_check_identity_and_path() {
    let public = CatalogModule::new(
        "tools".to_owned(),
        "{value = 42}".to_owned(),
        "tools".to_owned(),
        "tools.simi".to_owned(),
        CatalogModuleVisibility::Public,
    )
    .unwrap();
    assert_eq!(public.name(), "tools");
    assert_eq!(public.source(), "{value = 42}");
    assert_eq!(public.package(), "tools");
    assert_eq!(public.source_path(), "tools.simi");
    assert_eq!(public.visibility(), CatalogModuleVisibility::Public);

    let error = CatalogModule::new(
        "tools".to_owned(),
        String::new(),
        "tools".to_owned(),
        "other.simi".to_owned(),
        CatalogModuleVisibility::Public,
    )
    .unwrap_err();
    assert_eq!(error.text(), "public catalog module `tools` must use source path `tools.simi`");

    let local = CatalogModule::new(
        "__simi_package_local__/tools/util.simi".to_owned(),
        String::new(),
        "tools".to_owned(),
        "util.simi".to_owned(),
        CatalogModuleVisibility::PackageLocal,
    );
    assert!(local.is_ok());
    let error = CatalogModule::new(
        "util".to_owned(),
        String::new(),
        "tools".to_owned(),
        "util.simi".to_owned(),
        CatalogModuleVisibility::PackageLocal,
    )
    .unwrap_err();
    assert_eq!(
        error.text(),
        "package-local catalog module identity `util` must equal `__simi_package_local__/tools/util.simi`"
    );
}

#[test]
fn manifests_check_their_declared_fields() {
    let manifest = PackageManifest::new(
        "tools".to_owned(),
        "0.1".to_owned(),
        strings(&["tools", "tools/io"]),
        Some("native/Cargo.toml".to_owned()),
    )
    .unwrap();
    assert_eq!(manifest.name(), "tools");
    assert_eq!(manifest.simi(), "0.1");
    let paths: Vec<&str> = manifest.modules().iter().map(|m| m.source_path()).collect();
    assert_eq!(paths, vec!["tools.simi", "tools/io.simi"]);
    assert_eq!(manifest.native().unwrap().manifest_path(), "native/Cargo.toml");

    let cases = [
        (("Tools", "0.1", vec!["tools"], None), "package metadata name `Tools` must be a lowercase module component"),
        (("tools", "", vec!["tools"], None), "package metadata field `simi` must not be empty"),
        (("tools", "0.1", vec![], None), "package metadata field `modules` must not be empty"),
        (("tools", "0.1", vec!["tools", "tools"], None), "package metadata declares module `tools` more than once"),
        (("tools", "0.1", vec!["tools/io"], None), "package metadata must export root module `tools`"),
        (("tools", "0.1", vec!["tools"], Some("native/build.rs")), "package metadata native manifest must name a Cargo.toml file"),
    ];
    for ((name, simi, modules, native), expected) in cases {
        let error = PackageManifest::new(
            name.to_owned(),
            simi.to_owned(),
            strings(&modules),
            native.map(|n: &str| n.to_owned()),
        )
        .unwrap_err();
        assert_eq!(error.text(), expected);
    }
}

#[test]
fn package_modules_and_native_metadata() {
    let module = PackageModule::new("tools/io".to_owned(), "tools").unwrap();
    assert_eq!(module.name(), "tools/io");
    assert_eq!(module.source_path(), "tools/io.simi");
    assert!(PackageModule::new("other".to_owned(), "tools").is_err());
    assert!(NativePackage::new("../Cargo.toml".to_owned()).is_err());
    assert_eq!(NativePackage::new("Cargo.toml".to_owned()).unwrap().manifest_path(), "Cargo.toml");
}
