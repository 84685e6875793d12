use biblio_json::modules::dict::{DictConfig, DictModule};
use biblio_json::modules::Module;
use biblio_json::package::{Package, PackageConfig};

fn dict_module(name: &str) -> Module {
    let config = DictConfig {
        name: name.to_string(),
        authors: vec![],
        language: "en".to_string(),
        description: None,
        data_source: None,
        pub_year: None,
        license: None,
    };
    Module::Dictionary(DictModule::load(config, vec![]))
}

#[test]
fn groups_that_all_load_are_joined() {
    let groups = vec![Ok(vec![dict_module("a")]), Ok(vec![]), Ok(vec![dict_module("b"), dict_module("c")])];
    let modules = Package::load_modules(groups).unwrap();
    assert_eq!(modules.len(), 3);
    assert!(modules.iter().all(|m| m.is_dict() && !m.is_bible() && !m.is_xrefs()));
}

#[test]
fn errors_of_failed_groups_are_collected() {
    let groups = vec![Err("bibles failed".to_string()), Ok(vec![dict_module("a")]), Err("xrefs failed".to_string())];
    let errors = Package::load_modules(groups).unwrap_err();
    assert_eq!(errors, vec!["bibles failed".to_string(), "xrefs failed".to_string()]);
}

#[test]
fn no_groups_load_nothing() {
    assert!(Package::load_modules(vec![]).unwrap().is_empty());
}

#[test]
fn package_takes_config_fields() {
    let config = PackageConfig {
        name: "pkg".to_string(),
        authors: vec!["A".to_string()],
        license: "MIT".to_string(),
        module_paths: None,
    };
    let p = Package::from_config(config, vec![dict_module("a")]);
    assert_eq!(p.name, "pkg");
    assert_eq!(p.authors, vec!["A".to_string()]);
    assert_eq!(p.modules.len(), 1);
}
