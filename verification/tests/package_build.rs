use sloth::items::Package;
use sloth::package_build::{
    object_file_paths, Archiver, BuildError, CommandPackageBuilder, FilePath, Linker,
    ModuleBuilder,
};
use sloth::path::{ModulePath, ModulePathResolver};
use std::cell::RefCell;

fn path(components: &[&str]) -> FilePath {
    FilePath::new(components.iter().map(|c| c.to_string()).collect())
}

fn components(path: &FilePath) -> Vec<String> {
    path.components().to_vec()
}

struct RecordingLinker {
    calls: RefCell<Vec<(Vec<Vec<String>>, String)>>,
    fail: bool,
}

impl Linker for RecordingLinker {
    fn link(&self, object_file_paths: &[FilePath], command_name: &str) -> Result<(), BuildError> {
        self.calls.borrow_mut().push((
            object_file_paths.iter().map(components).collect(),
            command_name.to_string(),
        ));
        if self.fail {
            Err(BuildError { message: "link failed".to_string() })
        } else {
            Ok(())
        }
    }
}

struct FixedModuleBuilder {
    answer: Result<Vec<(Vec<&'static str>, Vec<&'static str>)>, String>,
    packages: RefCell<Vec<String>>,
}

impl ModuleBuilder for FixedModuleBuilder {
    fn build(&self, package: &Package) -> Result<Vec<(FilePath, FilePath)>, BuildError> {
        self.packages.borrow_mut().push(package.name.clone());
        match &self.answer {
            Ok(pairs) => Ok(pairs.iter().map(|(o, i)| (path(o), path(i))).collect()),
            Err(message) => Err(BuildError { message: message.clone() }),
        }
    }
}

fn module_builder(
    answer: Result<Vec<(Vec<&'static str>, Vec<&'static str>)>, String>,
) -> FixedModuleBuilder {
    FixedModuleBuilder { answer, packages: RefCell::new(vec![]) }
}

#[test]
fn object_file_paths_are_the_first_of_each_pair_in_order() {
    let pairs = vec![
        (path(&["o", "a"]), path(&["i", "a"])),
        (path(&["o", "b"]), path(&["i", "b"])),
    ];
    let objects = object_file_paths(&pairs);
    assert_eq!(objects.len(), 2);
    assert_eq!(components(&objects[0]), vec!["o".to_string(), "a".to_string()]);
    assert_eq!(components(&objects[1]), vec!["o".to_string(), "b".to_string()]);
    assert_eq!(object_file_paths(&vec![]).len(), 0);
}

#[test]
fn command_package_builder_links_object_files() {
    let modules = module_builder(Ok(vec![
        (vec!["x.bc"], vec!["x.json"]),
        (vec!["y.bc"], vec!["y.json"]),
    ]));
    let linker = RecordingLinker { calls: RefCell::new(vec![]), fail: false };
    let builder = CommandPackageBuilder::new(&modules, &linker);
    let result = builder.build(&Package::new("p", "1.0"), "command");
    assert_eq!(result, Ok(()));
    assert_eq!(*modules.packages.borrow(), vec!["p".to_string()]);
    let calls = linker.calls.borrow();
    assert_eq!(calls.len(), 1);
    assert_eq!(calls[0].0, vec![vec!["x.bc".to_string()], vec!["y.bc".to_string()]]);
    assert_eq!(calls[0].1, "command");
}

#[test]
fn command_package_builder_returns_linker_errors() {
    let modules = module_builder(Ok(vec![]));
    let linker = RecordingLinker { calls: RefCell::new(vec![]), fail: true };
    let builder = CommandPackageBuilder::new(&modules, &linker);
    let result = builder.build(&Package::new("p", "1.0"), "command");
    assert_eq!(result, Err(BuildError { message: "link failed".to_string() }));
}

#[test]
fn command_package_builder_returns_module_build_errors_without_linking() {
    let modules = module_builder(Err("module failed".to_string()));
    let linker = RecordingLinker { calls: RefCell::new(vec![]), fail: false };
    let builder = CommandPackageBuilder::new(&modules, &linker);
    let result = builder.build(&Package::new("p", "1.0"), "command");
    assert_eq!(result, Err(BuildError { message: "module failed".to_string() }));
    assert!(linker.calls.borrow().is_empty());
}

#[test]
fn file_path_keeps_components_and_clones() {
    let path_before = path(&["a", "b", "c"]);
    let copy = path_before.clone();
    assert_eq!(components(&copy), vec!["a".to_string(), "b".to_string(), "c".to_string()]);
}

#[test]
fn archiver_can_be_created() {
    let _archiver = Archiver::new();
}

#[test]
fn relative_module_interface_is_under_the_interface_directory() {
    let resolver = ModulePathResolver::new("interfaces");
    let path = resolver.resolve_module_interface(&ModulePath::Relative(vec![
        "foo".to_string(),
        "bar".to_string(),
    ]));
    assert_eq!(path, vec!["interfaces".to_string(), "foo".to_string(), "bar".to_string()]);
}

#[test]
fn module_at_the_root_resolves_to_the_directory() {
    let resolver = ModulePathResolver::new("d");
    let path = resolver.resolve_module_interface(&ModulePath::Relative(vec![]));
    assert_eq!(path, vec!["d".to_string()]);
}
