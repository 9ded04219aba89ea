//! Preparing a compiled module for linking with others.
use vstd::prelude::*;
use crate::core_ast::{rename_definition, top_level_names, Definition, DefinitionModel, Module};
use crate::names::NameMap;

verus! {

/// Renames the top-level definitions of `module` after `module_name`, and
/// every free reference to them in the definitions' bodies: a defined name
/// `x` becomes `module_name.x`, and `main` becomes `sloth_main`.
pub fn rename_top_level_variables(module: &Module, module_name: &str) -> (renamed: Module)
    ensures
        renamed@ == module@.map_values(
            |d: DefinitionModel| rename_definition(d, top_level_names(module@, module_name@)),
        ),
{
    let ghost model = module@;
    let mut names = NameMap::new();
    let definitions_in = module.definitions();
    let count = definitions_in.len();
    let mut i: usize = 0;
    while i < count
        invariant
            count == definitions_in@.len(),
            definitions_in@.map_values(|d: Definition| d@) == model,
            model == module@,
            i <= count,
            names@ == Map::new(
                |name: Seq<char>|
                    exists|j: int| 0 <= j < i && model[j].name() == name,
                |name: Seq<char>| module_name@ + "."@ + name,
            ),
        decreases count - i,
    {
        let name = definitions_in[i].name();
        let mut qualified = String::from_str(module_name);
        qualified.append(".");
        qualified.append(name);
        names.insert(String::from_str(name), qualified);
        proof {
            assert(model[i as int] == definitions_in@[i as int]@);
            assert(names@ =~= Map::new(
                |n: Seq<char>| exists|j: int| 0 <= j < i + 1 && model[j].name() == n,
                |n: Seq<char>| module_name@ + "."@ + n,
            ));
        }
        i = i + 1;
    }
    names.insert(String::from_str("main"), String::from_str("sloth_main"));
    assert(names@ =~= top_level_names(model, module_name@));
    let mut definitions: Vec<Definition> = Vec::new();
    let mut k: usize = 0;
    while k < count
        invariant
            count == definitions_in@.len(),
            definitions_in@.map_values(|d: Definition| d@) == model,
            model == module@,
            k <= count,
            names@ == top_level_names(model, module_name@),
            definitions@.len() == k,
            forall|j: int|
                0 <= j < k ==> #[trigger] definitions@[j]@ == rename_definition(model[j], names@),
        decreases count - k,
    {
        let renamed = definitions_in[k].rename_variables(&names);
        definitions.push(renamed);
        k = k + 1;
    }
    let renamed = Module::new(definitions);
    assert(renamed@ =~= model.map_values(
        |d: DefinitionModel| rename_definition(d, top_level_names(model, module_name@)),
    ));
    renamed
}

} // verus!

verus! {

/// After renaming, the definition at each position of a module is named
/// `sloth_main` if it was named `main`, and otherwise by its old name
/// qualified by the module's name and a dot.
pub proof fn lemma_renamed_definition_name(
    definitions: Seq<DefinitionModel>,
    module_name: Seq<char>,
    i: int,
)
    requires
        0 <= i < definitions.len(),
    ensures
        rename_definition(definitions[i], top_level_names(definitions, module_name)).name() == (
        if definitions[i].name() == "main"@ {
            "sloth_main"@
        } else {
            module_name + "."@ + definitions[i].name()
        }),
{
    let names = top_level_names(definitions, module_name);
    assert(names.contains_key(definitions[i].name()));
}

} // verus!
