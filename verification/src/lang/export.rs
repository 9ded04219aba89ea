//! What a module's foreign exports stand for among the global names.
use vstd::prelude::*;
use crate::lang::module::Module;
use crate::names::NameMap;

verus! {

/// A name that a module exports to foreign code but that no global name
/// stands for.
#[derive(Debug)]
pub struct ExportedNameNotFound {
    pub name: String,
}

/// The pair that an exported name gives: the global name it stands for
/// under `global_names`, and the exported name itself.
pub open spec fn foreign_definition(
    global_names: Map<Seq<char>, Seq<char>>,
    name: Seq<char>,
) -> (Seq<char>, Seq<char>) {
    (global_names[name], name)
}

/// The foreign definitions of `module`'s foreign exports: for each name it
/// exports to foreign code, in order, the global name that `global_names`
/// gives it and the exported name. The first exported name that
/// `global_names` has no entry for is the error.
pub fn foreign_definitions(module: &Module, global_names: &NameMap) -> (result: Result<
    Vec<(String, String)>,
    ExportedNameNotFound,
>)
    ensures
        (forall|i: int|
            0 <= i < module.export_foreign.names@.len() ==> global_names@.contains_key(
                #[trigger] module.export_foreign.names@[i]@,
            )) ==> result is Ok,
        match result {
            Ok(definitions) => definitions@.len() == module.export_foreign.names@.len() && forall|
                i: int,
            |
                0 <= i < definitions@.len() ==> global_names@.contains_key(
                    module.export_foreign.names@[i]@,
                ) && (#[trigger] definitions@[i].0@, definitions@[i].1@) == foreign_definition(
                    global_names@,
                    module.export_foreign.names@[i]@,
                ),
            Err(error) => exists|i: int|
                0 <= i < module.export_foreign.names@.len() && #[trigger] module.export_foreign.names@[i]@
                    == error.name@ && !global_names@.contains_key(error.name@) && forall|j: int|
                    0 <= j < i ==> global_names@.contains_key(
                        #[trigger] module.export_foreign.names@[j]@,
                    ),
        },
{
    let names = &module.export_foreign.names;
    let mut definitions: Vec<(String, String)> = Vec::new();
    let mut i: usize = 0;
    while i < names.len()
        invariant
            i <= names@.len(),
            names@ == module.export_foreign.names@,
            definitions@.len() == i,
            forall|j: int|
                0 <= j < i ==> global_names@.contains_key(#[trigger] names@[j]@) && (
                definitions@[j].0@,
                definitions@[j].1@,
            ) == foreign_definition(global_names@, names@[j]@),
        decreases names@.len() - i,
    {
        let name = &names[i];
        match global_names.get(name.as_str()) {
            Some(global_name) => {
                definitions.push((global_name.clone(), name.clone()));
            },
            None => {
                let error = ExportedNameNotFound { name: name.clone() };
                assert(names@[i as int]@ == error.name@);
                return Err(error);
            },
        }
        i = i + 1;
    }
    Ok(definitions)
}

} // verus!
