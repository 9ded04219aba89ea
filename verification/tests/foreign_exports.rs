use sloth::items::{Export, ExportForeign, ModulePath, Package};
use sloth::lang::export::foreign_definitions;
use sloth::lang::module::Module;
use sloth::NameMap;

fn module(exports: &[&str]) -> Module {
    Module::new(
        ModulePath::new(Package::new("p", "1"), vec![]),
        Export::new(vec![]),
        ExportForeign::new(exports.iter().map(|name| name.to_string()).collect()),
        vec![],
        vec![],
        vec![],
        vec![],
    )
}

fn global_names() -> NameMap {
    let mut names = NameMap::new();
    names.insert("f".to_string(), "m.f".to_string());
    names.insert("g".to_string(), "m.g".to_string());
    names
}

#[test]
fn exported_names_are_paired_with_their_global_names() {
    let definitions = foreign_definitions(&module(&["g", "f"]), &global_names()).unwrap();
    assert_eq!(
        definitions,
        vec![
            ("m.g".to_string(), "g".to_string()),
            ("m.f".to_string(), "f".to_string()),
        ]
    );
}

#[test]
fn first_exported_name_without_global_name_is_the_error() {
    let error = foreign_definitions(&module(&["f", "x", "y"]), &global_names()).unwrap_err();
    assert_eq!(error.name, "x");
}

#[test]
fn no_foreign_exports_give_no_definitions() {
    assert!(foreign_definitions(&module(&[]), &global_names()).unwrap().is_empty());
}
