//! Where the interfaces of imported modules are found.
use vstd::prelude::*;
use crate::syntax::names_model;

verus! {

/// The path of an imported module: absolute, from the root of its package,
/// or relative to the importing package, by its components.
#[derive(Debug)]
pub enum ModulePath {
    Absolute(Vec<String>),
    Relative(Vec<String>),
}

/// Finds module interfaces under a directory.
#[derive(Debug)]
pub struct ModulePathResolver {
    module_interface_directory: String,
}

impl ModulePathResolver {
    /// The directory under which this resolver finds interfaces.
    pub closed spec fn directory(&self) -> Seq<char> {
        self.module_interface_directory@
    }

    pub fn new(module_interface_directory: &str) -> (resolver: Self)
        ensures
            resolver.directory() == module_interface_directory@,
    {
        ModulePathResolver { module_interface_directory:
            String::from_str(module_interface_directory) }
    }

    /// The file path of the interface of a module given by a relative path:
    /// the interface directory followed by the module path's components, as
    /// the components of the file path, in order.
    pub fn resolve_module_interface(&self, module: &ModulePath) -> (path: Vec<String>)
        requires
            module is Relative,
        ensures
            names_model(path@) == seq![self.directory()] + names_model(module->Relative_0@),
    {
        let mut path: Vec<String> = Vec::new();
        path.push(self.module_interface_directory.clone());
        match module {
            ModulePath::Relative(components) => {
                let mut i: usize = 0;
                while i < components.len()
                    invariant
                        i <= components@.len(),
                        path@.len() == i + 1,
                        path@[0]@ == self.directory(),
                        forall|j: int| 1 <= j <= i ==> #[trigger] path@[j]@ == components@[j - 1]@,
                    decreases components@.len() - i,
                {
                    path.push(components[i].clone());
                    i = i + 1;
                }
                assert(names_model(path@) =~= seq![self.directory()] + names_model(components@));
            },
            ModulePath::Absolute(_) => {},
        }
        path
    }
}

} // verus!
