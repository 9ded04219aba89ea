//! Building command packages: which object files are linked into a
//! command.
use vstd::prelude::*;
use crate::items::Package;
use crate::syntax::{copy_names, names_model};

verus! {

/// A path to a file, by its components.
#[derive(Debug)]
pub struct FilePath {
    components: Vec<String>,
}

impl View for FilePath {
    type V = Seq<Seq<char>>;

    closed spec fn view(&self) -> Seq<Seq<char>> {
        names_model(self.components@)
    }
}

impl FilePath {
    pub fn new(components: Vec<String>) -> (path: Self)
        ensures
            path@ == names_model(components@),
    {
        FilePath { components }
    }

    pub fn components(&self) -> (components: &[String])
        ensures
            names_model(components@) == self@,
    {
        self.components.as_slice()
    }
}

impl Clone for FilePath {
    fn clone(&self) -> (copy: Self)
        ensures
            copy@ == self@,
    {
        FilePath { components: copy_names(&self.components) }
    }
}

/// Why building or linking failed.
#[derive(Debug, Clone, PartialEq, Eq)]
pub struct BuildError {
    pub message: String,
}

/// Links object files into a command.
pub trait Linker {
    /// Whether `result` is an answer that linking the object files at
    /// `objects`, in order, into the command `command_name` may give. A
    /// linker that says nothing more may give any answer.
    closed spec fn links(
        &self,
        objects: Seq<Seq<Seq<char>>>,
        command_name: Seq<char>,
        result: Result<(), BuildError>,
    ) -> bool {
        true
    }

    fn link(&self, object_file_paths: &[FilePath], command_name: &str) -> (result: Result<
        (),
        BuildError,
    >)
        ensures
            self.links(
                object_file_paths@.map_values(|path: FilePath| path@),
                command_name@,
                result,
            ),
    ;
}

/// Bundles object and interface files into a library archive.
#[derive(Debug, Default)]
pub struct Archiver;

impl Archiver {
    pub fn new() -> (archiver: Self) {
        Archiver
    }
}

/// The object files among the pairs of object and interface files that
/// building a package's modules produces, in order.
pub fn object_file_paths(file_paths: &Vec<(FilePath, FilePath)>) -> (objects: Vec<FilePath>)
    ensures
        objects@.len() == file_paths@.len(),
        forall|i: int| 0 <= i < file_paths@.len() ==> #[trigger] objects@[i]@ == file_paths@[i].0@,
{
    let mut objects: Vec<FilePath> = Vec::new();
    let mut i: usize = 0;
    while i < file_paths.len()
        invariant
            i <= file_paths@.len(),
            objects@.len() == i,
            forall|j: int| 0 <= j < i ==> #[trigger] objects@[j]@ == file_paths@[j].0@,
        decreases file_paths@.len() - i,
    {
        objects.push(file_paths[i].0.clone());
        i = i + 1;
    }
    objects
}

/// The views of pairs of object and interface files.
pub open spec fn pairs_view(pairs: Seq<(FilePath, FilePath)>) -> Seq<(Seq<Seq<char>>, Seq<Seq<char>>)> {
    pairs.map_values(|pair: (FilePath, FilePath)| (pair.0@, pair.1@))
}

/// What building modules answered, viewed.
pub open spec fn built_view(result: Result<Vec<(FilePath, FilePath)>, BuildError>) -> Result<
    Seq<(Seq<Seq<char>>, Seq<Seq<char>>)>,
    BuildError,
> {
    match result {
        Ok(pairs) => Ok(pairs_view(pairs@)),
        Err(error) => Err(error),
    }
}

/// Builds the modules of a package into object and interface files.
pub trait ModuleBuilder {
    /// Whether `result` is an answer that building the modules of `package`
    /// may give: the pairs of object and interface files built, in order,
    /// or why building failed. A builder that says nothing more may give
    /// any answer.
    closed spec fn builds(
        &self,
        package: Package,
        result: Result<Seq<(Seq<Seq<char>>, Seq<Seq<char>>)>, BuildError>,
    ) -> bool {
        true
    }

    fn build(&self, package: &Package) -> (result: Result<Vec<(FilePath, FilePath)>, BuildError>)
        ensures
            self.builds(*package, built_view(result)),
    ;
}

/// Builds commands: builds the modules of a package, then links their
/// object files.
pub struct CommandPackageBuilder<'a, B: ModuleBuilder, L: Linker> {
    module_builder: &'a B,
    linker: &'a L,
}

impl<'a, B: ModuleBuilder, L: Linker> CommandPackageBuilder<'a, B, L> {
    pub fn new(module_builder: &'a B, linker: &'a L) -> (builder: Self)
        ensures
            builder.module_builder() == module_builder,
            builder.linker() == linker,
    {
        CommandPackageBuilder { module_builder, linker }
    }

    /// The builder that this builder builds a package's modules with.
    pub closed spec fn module_builder(&self) -> &'a B {
        self.module_builder
    }

    /// The linker that this builder hands object files to.
    pub closed spec fn linker(&self) -> &'a L {
        self.linker
    }

    /// Builds the modules of `package` and links their object files, in
    /// the order in which they were built, into the command
    /// `command_name`. Where building the modules fails, that error comes
    /// back and nothing is linked; otherwise what comes back is what the
    /// linker answers.
    pub fn build(&self, package: &Package, command_name: &str) -> (result: Result<(), BuildError>)
        ensures
            exists|built: Result<Seq<(Seq<Seq<char>>, Seq<Seq<char>>)>, BuildError>|
                #[trigger] self.module_builder().builds(*package, built) && match built {
                    Err(error) => result == Err::<(), BuildError>(error),
                    Ok(pairs) => self.linker().links(
                        pairs.map_values(|pair: (Seq<Seq<char>>, Seq<Seq<char>>)| pair.0),
                        command_name@,
                        result,
                    ),
                },
    {
        let built = self.module_builder.build(package);
        let ghost built_model = built_view(built);
        let file_paths = match built {
            Ok(file_paths) => file_paths,
            Err(error) => {
                assert(self.module_builder().builds(*package, built_model));
                return Err(error);
            },
        };
        let objects = object_file_paths(&file_paths);
        let result = self.linker.link(objects.as_slice(), command_name);
        assert(objects@.map_values(|path: FilePath| path@) =~= pairs_view(file_paths@).map_values(
            |pair: (Seq<Seq<char>>, Seq<Seq<char>>)| pair.0,
        ));
        assert(self.module_builder().builds(*package, built_model));
        result
    }
}

} // verus!
