//! What a module holds besides its definitions: its path, what it exports,
//! what it imports, foreign declarations and type definitions.
use vstd::prelude::*;
use crate::syntax::{
    copy_names, lemma_type_transformed_keeps, names_model, type_step, type_transformed, witness,
    SourceInformation, Type, TypeModel,
};

verus! {

/// A package, by its name and version.
#[derive(Debug)]
pub struct Package {
    pub name: String,
    pub version: String,
}

impl Package {
    pub fn new(name: &str, version: &str) -> (package: Self)
        ensures
            package.name@ == name@,
            package.version@ == version@,
    {
        Package { name: String::from_str(name), version: String::from_str(version) }
    }
}

impl Clone for Package {
    fn clone(&self) -> (copy: Self)
        ensures
            copy == *self,
    {
        Package { name: self.name.clone(), version: self.version.clone() }
    }
}

/// The path of a module: its package and its components inside the package.
#[derive(Debug)]
pub struct ModulePath {
    pub package: Package,
    pub components: Vec<String>,
}

impl View for ModulePath {
    type V = (Package, Seq<Seq<char>>);

    open spec fn view(&self) -> (Package, Seq<Seq<char>>) {
        (self.package, names_model(self.components@))
    }
}

impl ModulePath {
    pub fn new(package: Package, components: Vec<String>) -> (path: Self)
        ensures
            path.package == package,
            path.components@ == components@,
    {
        ModulePath { package, components }
    }
}

impl Clone for ModulePath {
    fn clone(&self) -> (copy: Self)
        ensures
            copy@ == self@,
    {
        ModulePath { package: self.package.clone(), components: copy_names(&self.components) }
    }
}

/// The names that a module exports.
#[derive(Debug)]
pub struct Export {
    pub names: Vec<String>,
}

impl Export {
    pub fn new(names: Vec<String>) -> (export: Self)
        ensures
            export.names@ == names@,
    {
        Export { names }
    }
}

impl View for Export {
    type V = Seq<Seq<char>>;

    open spec fn view(&self) -> Seq<Seq<char>> {
        names_model(self.names@)
    }
}

impl Clone for Export {
    fn clone(&self) -> (copy: Self)
        ensures
            copy@ == self@,
    {
        Export { names: copy_names(&self.names) }
    }
}

/// The names that a module exports to foreign code.
#[derive(Debug)]
pub struct ExportForeign {
    pub names: Vec<String>,
}

impl ExportForeign {
    pub fn new(names: Vec<String>) -> (export: Self)
        ensures
            export.names@ == names@,
    {
        ExportForeign { names }
    }
}

impl View for ExportForeign {
    type V = Seq<Seq<char>>;

    open spec fn view(&self) -> Seq<Seq<char>> {
        names_model(self.names@)
    }
}

impl Clone for ExportForeign {
    fn clone(&self) -> (copy: Self)
        ensures
            copy@ == self@,
    {
        ExportForeign { names: copy_names(&self.names) }
    }
}

/// A name with a type.
#[derive(Debug)]
pub struct TypedName {
    pub name: String,
    pub type_: Type,
}

impl TypedName {
    pub fn new(name: &str, type_: Type) -> (typed: Self)
        ensures
            typed.name@ == name@,
            typed.type_ == type_,
    {
        TypedName { name: String::from_str(name), type_ }
    }
}

impl View for TypedName {
    type V = (Seq<char>, TypeModel);

    open spec fn view(&self) -> (Seq<char>, TypeModel) {
        (self.name@, self.type_@)
    }
}

pub open spec fn typed_names_model(names: Seq<TypedName>) -> Seq<(Seq<char>, TypeModel)> {
    names.map_values(|typed: TypedName| typed@)
}

/// A copy of a sequence of typed names.
pub fn copy_typed_names(names: &Vec<TypedName>) -> (copy: Vec<TypedName>)
    ensures
        typed_names_model(copy@) == typed_names_model(names@),
{
    let mut copy: Vec<TypedName> = Vec::new();
    let mut i: usize = 0;
    while i < names.len()
        invariant
            i <= names@.len(),
            copy@.len() == i,
            forall|j: int| 0 <= j < i ==> #[trigger] copy@[j]@ == names@[j]@,
        decreases names@.len() - i,
    {
        copy.push(TypedName { name: names[i].name.clone(), type_: names[i].type_.clone() });
        i = i + 1;
    }
    assert(typed_names_model(copy@) =~= typed_names_model(names@));
    copy
}

/// What a compiled module offers to the modules that import it: its path
/// and the types of the variables it exports, in order.
#[derive(Debug)]
pub struct ModuleInterface {
    pub path: ModulePath,
    pub variables: Vec<TypedName>,
}

impl ModuleInterface {
    pub fn new(path: ModulePath, variables: Vec<TypedName>) -> (interface: Self)
        ensures
            interface.path == path,
            interface.variables@ == variables@,
    {
        ModuleInterface { path, variables }
    }

    pub fn variables(&self) -> (variables: &[TypedName])
        ensures
            variables@ == self.variables@,
    {
        self.variables.as_slice()
    }
}

/// An import of another module, by its interface.
#[derive(Debug)]
pub struct Import {
    pub module_interface: ModuleInterface,
}

impl Import {
    pub fn new(module_interface: ModuleInterface) -> (import: Self)
        ensures
            import.module_interface == module_interface,
    {
        Import { module_interface }
    }

    pub fn module_interface(&self) -> (interface: &ModuleInterface)
        ensures
            *interface == self.module_interface,
    {
        &self.module_interface
    }
}

impl View for Import {
    type V = ((Package, Seq<Seq<char>>), Seq<(Seq<char>, TypeModel)>);

    open spec fn view(&self) -> ((Package, Seq<Seq<char>>), Seq<(Seq<char>, TypeModel)>) {
        (self.module_interface.path@, typed_names_model(self.module_interface.variables@))
    }
}

impl Clone for Import {
    fn clone(&self) -> (copy: Self)
        ensures
            copy@ == self@,
    {
        Import {
            module_interface: ModuleInterface {
                path: self.module_interface.path.clone(),
                variables: copy_typed_names(&self.module_interface.variables),
            },
        }
    }
}

/// The calling convention of a foreign function.
#[derive(Clone, Copy, Debug, PartialEq, Eq, Structural)]
pub enum CallingConvention {
    Native,
    C,
}

/// A function imported from foreign code: its name in this module, its
/// foreign name, its calling convention and its type.
#[derive(Debug)]
pub struct ImportForeign {
    pub name: String,
    pub foreign_name: String,
    pub calling_convention: CallingConvention,
    pub type_: Type,
    pub source_information: SourceInformation,
}

impl ImportForeign {
    pub fn new(
        name: &str,
        foreign_name: &str,
        calling_convention: CallingConvention,
        type_: Type,
        source_information: SourceInformation,
    ) -> (import: Self)
        ensures
            import.name@ == name@,
            import.foreign_name@ == foreign_name@,
            import.calling_convention == calling_convention,
            import.type_ == type_,
            import.source_information == source_information,
    {
        ImportForeign {
            name: String::from_str(name),
            foreign_name: String::from_str(foreign_name),
            calling_convention,
            type_,
            source_information,
        }
    }

    /// This declaration with its type transformed bottom-up by `transform`.
    pub fn transform_types<E, F: Fn(&Type) -> Result<Type, E>>(&self, transform: &F) -> (result:
        Result<Self, E>)
        requires
            forall|type_: &Type| transform.requires((type_,)),
        ensures
            import_foreign_types_transformed(type_step(transform), *self, result),
    {
        let t = self.type_.transform_types(transform);
        assert(witness(t));
        match t {
            Err(error) => Err(error),
            Ok(type_) => Ok(
                ImportForeign {
                    name: self.name.clone(),
                    foreign_name: self.foreign_name.clone(),
                    calling_convention: self.calling_convention,
                    type_,
                    source_information: self.source_information.clone(),
                },
            ),
        }
    }
}

impl View for ImportForeign {
    type V = (Seq<char>, Seq<char>, CallingConvention, TypeModel, SourceInformation);

    open spec fn view(&self) -> (Seq<char>, Seq<char>, CallingConvention, TypeModel,
        SourceInformation) {
        (self.name@, self.foreign_name@, self.calling_convention, self.type_@,
            self.source_information)
    }
}

impl Clone for ImportForeign {
    fn clone(&self) -> (copy: Self)
        ensures
            copy@ == self@,
    {
        ImportForeign {
            name: self.name.clone(),
            foreign_name: self.foreign_name.clone(),
            calling_convention: self.calling_convention,
            type_: self.type_.clone(),
            source_information: self.source_information.clone(),
        }
    }
}

/// Whether transforming the type of `import` yields `result`: the same
/// declaration with the transformed type, or the error.
pub open spec fn import_foreign_types_transformed<E>(
    step: spec_fn(Type, Result<Type, E>) -> bool,
    import: ImportForeign,
    result: Result<ImportForeign, E>,
) -> bool {
    exists|t: Result<Type, E>|
        #[trigger] witness(t) && type_transformed(step, import.type_, t) && (t is Err ==> result
            == Err::<ImportForeign, E>(t->Err_0)) && (t is Ok ==> result == Ok::<ImportForeign, E>(
            ImportForeign { type_: t->Ok_0, ..import },
        ))
}

/// A type definition: a name for a type.
#[derive(Debug)]
pub struct TypeDefinition {
    pub name: String,
    pub type_: Type,
}

impl TypeDefinition {
    pub fn new(name: &str, type_: Type) -> (definition: Self)
        ensures
            definition.name@ == name@,
            definition.type_ == type_,
    {
        TypeDefinition { name: String::from_str(name), type_ }
    }

    /// This definition with its type transformed bottom-up by `transform`.
    pub fn transform_types<E, F: Fn(&Type) -> Result<Type, E>>(&self, transform: &F) -> (result:
        Result<Self, E>)
        requires
            forall|type_: &Type| transform.requires((type_,)),
        ensures
            type_definition_transformed(type_step(transform), *self, result),
    {
        let t = self.type_.transform_types(transform);
        assert(witness(t));
        match t {
            Err(error) => Err(error),
            Ok(type_) => Ok(TypeDefinition { name: self.name.clone(), type_ }),
        }
    }
}

impl View for TypeDefinition {
    type V = (Seq<char>, TypeModel);

    open spec fn view(&self) -> (Seq<char>, TypeModel) {
        (self.name@, self.type_@)
    }
}

impl Clone for TypeDefinition {
    fn clone(&self) -> (copy: Self)
        ensures
            copy@ == self@,
    {
        TypeDefinition { name: self.name.clone(), type_: self.type_.clone() }
    }
}

/// Whether transforming the type of `definition` yields `result`: the same
/// name for the transformed type, or the error.
pub open spec fn type_definition_transformed<E>(
    step: spec_fn(Type, Result<Type, E>) -> bool,
    definition: TypeDefinition,
    result: Result<TypeDefinition, E>,
) -> bool {
    exists|t: Result<Type, E>|
        #[trigger] witness(t) && type_transformed(step, definition.type_, t) && (t is Err ==> result
            == Err::<TypeDefinition, E>(t->Err_0)) && (t is Ok ==> result == Ok::<
            TypeDefinition,
            E,
        >(TypeDefinition { name: definition.name, type_: t->Ok_0 }))
}

/// The interface of a foreign package: the functions it offers.
#[derive(Debug)]
pub struct FfiPackageInterface {
    pub functions: Vec<TypedName>,
}

impl FfiPackageInterface {
    pub fn new(functions: Vec<TypedName>) -> (interface: Self)
        ensures
            interface.functions@ == functions@,
    {
        FfiPackageInterface { functions }
    }
}

impl View for FfiPackageInterface {
    type V = Seq<(Seq<char>, TypeModel)>;

    open spec fn view(&self) -> Seq<(Seq<char>, TypeModel)> {
        typed_names_model(self.functions@)
    }
}

impl Clone for FfiPackageInterface {
    fn clone(&self) -> (copy: Self)
        ensures
            copy@ == self@,
    {
        FfiPackageInterface { functions: copy_typed_names(&self.functions) }
    }
}

} // verus!

verus! {

/// Transforming the type of a foreign import with a step that keeps every
/// type, up to its view, keeps the import.
pub proof fn lemma_import_foreign_types_transformed_keeps<E>(
    step: spec_fn(Type, Result<Type, E>) -> bool,
    import: ImportForeign,
    result: Result<ImportForeign, E>,
)
    requires
        forall|x: Type, r: Result<Type, E>| #[trigger] step(x, r) ==> r is Ok && r->Ok_0@ == x@,
        import_foreign_types_transformed(step, import, result),
    ensures
        result is Ok && result->Ok_0@ == import@,
{
    let t = choose|t: Result<Type, E>|
        #[trigger] witness(t) && type_transformed(step, import.type_, t) && (t is Err ==> result
            == Err::<ImportForeign, E>(t->Err_0)) && (t is Ok ==> result == Ok::<ImportForeign, E>(
            ImportForeign { type_: t->Ok_0, ..import },
        ));
    lemma_type_transformed_keeps(step, import.type_, t);
}

/// Transforming the type of a type definition with a step that keeps every
/// type, up to its view, keeps the definition.
pub proof fn lemma_type_definition_transformed_keeps<E>(
    step: spec_fn(Type, Result<Type, E>) -> bool,
    definition: TypeDefinition,
    result: Result<TypeDefinition, E>,
)
    requires
        forall|x: Type, r: Result<Type, E>| #[trigger] step(x, r) ==> r is Ok && r->Ok_0@ == x@,
        type_definition_transformed(step, definition, result),
    ensures
        result is Ok && result->Ok_0@ == definition@,
{
    let t = choose|t: Result<Type, E>|
        #[trigger] witness(t) && type_transformed(step, definition.type_, t) && (t is Err ==> result
            == Err::<TypeDefinition, E>(t->Err_0)) && (t is Ok ==> result == Ok::<
            TypeDefinition,
            E,
        >(TypeDefinition { name: definition.name, type_: t->Ok_0 }));
    lemma_type_transformed_keeps(step, definition.type_, t);
}

} // verus!
