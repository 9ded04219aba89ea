//! The types of the variables in scope at the top level of a module.
use vstd::prelude::*;
use vstd::hash_map::StringHashMap;
use std::sync::Arc;
use crate::items::{typed_names_model, Import};
use crate::lang::module::Module;
use crate::syntax::{Type, TypeModel};

verus! {

/// A map from variable names to their types.
pub struct TypeEnvironment {
    map: StringHashMap<Type>,
}

impl View for TypeEnvironment {
    type V = Map<Seq<char>, TypeModel>;

    closed spec fn view(&self) -> Map<Seq<char>, TypeModel> {
        self.map@.map_values(|type_: Type| type_@)
    }
}

impl TypeEnvironment {
    /// An environment without variables.
    pub fn new() -> (environment: Self)
        ensures
            environment@ == Map::<Seq<char>, TypeModel>::empty(),
    {
        let environment = TypeEnvironment { map: StringHashMap::new() };
        assert(environment@ =~= Map::<Seq<char>, TypeModel>::empty());
        environment
    }

    /// Gives `name` the type `type_`, replacing any type it had.
    pub fn insert(&mut self, name: &str, type_: Type)
        ensures
            final(self)@ == old(self)@.insert(name@, type_@),
    {
        self.map.insert(String::from_str(name), type_);
        assert(self@ =~= old(self)@.insert(name@, type_@));
    }

    /// The type of `name`, if it has one.
    pub fn get(&self, name: &str) -> (type_: Option<&Type>)
        ensures
            match type_ {
                Some(t) => self@.contains_key(name@) && t@ == self@[name@],
                None => !self@.contains_key(name@),
            },
    {
        self.map.get(name)
    }

    /// Whether `name` has a type.
    pub fn contains(&self, name: &str) -> (found: bool)
        ensures
            found == self@.contains_key(name@),
    {
        self.map.contains_key(name)
    }
}

/// The map that binding `entries` in order builds: a later entry for a name
/// replaces an earlier one.
pub open spec fn entries_map(entries: Seq<(Seq<char>, TypeModel)>) -> Map<Seq<char>, TypeModel>
    decreases entries.len(),
{
    if entries.len() == 0 {
        Map::empty()
    } else {
        entries_map(entries.drop_last()).insert(entries.last().0, entries.last().1)
    }
}

/// The variables that `imports` bring, import by import, each in the order
/// of its interface.
pub open spec fn imported_entries(imports: Seq<Import>) -> Seq<(Seq<char>, TypeModel)>
    decreases imports.len(),
{
    if imports.len() == 0 {
        seq![]
    } else {
        imported_entries(imports.drop_last()) + typed_names_model(
            imports.last().module_interface.variables@,
        )
    }
}

/// The names that a module binds at its top level with their types, in
/// the order in which they are bound: what its imports bring, then its
/// foreign imports, then its definitions.
pub open spec fn environment_entries(module: Module) -> Seq<(Seq<char>, TypeModel)> {
    imported_entries(module.imports@) + module.import_foreigns@.map_values(
        |f: crate::items::ImportForeign| (f.name@, f.type_@),
    ) + module.definitions@.map_values(
        |d: crate::syntax::Definition| (d.defined_name(), d.defined_type()@),
    )
}

/// The types of the variables in scope at the top level of `module`.
pub open spec fn module_environment(module: Module) -> Map<Seq<char>, TypeModel> {
    entries_map(environment_entries(module))
}

proof fn lemma_entries_map_push(
    entries: Seq<(Seq<char>, TypeModel)>,
    entry: (Seq<char>, TypeModel),
)
    ensures
        entries_map(entries.push(entry)) == entries_map(entries).insert(entry.0, entry.1),
{
    assert(entries.push(entry).drop_last() =~= entries);
}

pub(crate) proof fn lemma_entries_map_last(entries: Seq<(Seq<char>, TypeModel)>, i: int)
    requires
        0 <= i < entries.len(),
        forall|j: int| i < j < entries.len() ==> entries[j].0 != entries[i].0,
    ensures
        entries_map(entries).contains_key(entries[i].0),
        entries_map(entries)[entries[i].0] == entries[i].1,
    decreases entries.len(),
{
    if i < entries.len() - 1 {
        lemma_entries_map_last(entries.drop_last(), i);
    }
}

pub(crate) proof fn lemma_entries_map_absent(entries: Seq<(Seq<char>, TypeModel)>, name: Seq<char>)
    requires
        forall|j: int| 0 <= j < entries.len() ==> entries[j].0 != name,
    ensures
        !entries_map(entries).contains_key(name),
    decreases entries.len(),
{
    if entries.len() > 0 {
        lemma_entries_map_absent(entries.drop_last(), name);
    }
}

/// The names that binding `entries` in order gives a value to are the
/// names of the entries.
pub(crate) proof fn lemma_entries_map_domain(entries: Seq<(Seq<char>, TypeModel)>)
    ensures
        entries_map(entries).dom() == Set::new(
            |name: Seq<char>| exists|k: int| 0 <= k < entries.len() && entries[k].0 == name,
        ),
    decreases entries.len(),
{
    if entries.len() > 0 {
        let init = entries.drop_last();
        lemma_entries_map_domain(init);
        assert forall|name: Seq<char>|
            #[trigger] entries_map(entries).dom().contains(name) implies exists|k: int|
                0 <= k < entries.len() && entries[k].0 == name by {
            if name != entries.last().0 {
                let k = choose|k: int| 0 <= k < init.len() && init[k].0 == name;
                assert(entries[k] == init[k]);
            }
        }
        assert forall|name: Seq<char>|
            (exists|k: int| 0 <= k < entries.len() && entries[k].0 == name) implies #[trigger]
                entries_map(entries).dom().contains(name) by {
            let k = choose|k: int| 0 <= k < entries.len() && entries[k].0 == name;
            if k < entries.len() - 1 {
                assert(init[k] == entries[k]);
            }
        }
        assert(entries_map(entries).dom() =~= Set::new(
            |name: Seq<char>| exists|k: int| 0 <= k < entries.len() && entries[k].0 == name,
        ));
    }
}

/// The names in scope at the top level of a module are exactly those that
/// its imports, its foreign imports and its definitions bind.
pub proof fn lemma_environment_names(module: Module)
    ensures
        module_environment(module).dom() == Set::new(
            |name: Seq<char>|
                exists|k: int|
                    0 <= k < environment_entries(module).len() && environment_entries(module)[k].0
                        == name,
        ),
{
    lemma_entries_map_domain(environment_entries(module));
}

/// Whether an interface variable of one of `imports` is named `name`.
pub open spec fn imports_name(imports: Seq<Import>, name: Seq<char>) -> bool {
    exists|i: int, k: int|
        0 <= i < imports.len() && 0 <= k < imports[i].module_interface.variables@.len()
            && #[trigger] imports[i].module_interface.variables@[k].name@ == name
}

proof fn lemma_imported_names(imports: Seq<Import>, name: Seq<char>)
    ensures
        (exists|k: int|
            0 <= k < imported_entries(imports).len() && #[trigger] imported_entries(imports)[k].0
                == name) <==> imports_name(imports, name),
    decreases imports.len(),
{
    if imports.len() > 0 {
        let init = imports.drop_last();
        let last = imports.last();
        let before = imported_entries(init);
        let added = typed_names_model(last.module_interface.variables@);
        let all = imported_entries(imports);
        lemma_imported_names(init, name);
        assert(all == before + added);
        if exists|k: int| 0 <= k < all.len() && #[trigger] all[k].0 == name {
            let k = choose|k: int| 0 <= k < all.len() && #[trigger] all[k].0 == name;
            if k < before.len() {
                assert(before[k] == all[k]);
                let (i, m) = choose|i: int, m: int|
                    0 <= i < init.len() && 0 <= m < init[i].module_interface.variables@.len()
                        && #[trigger] init[i].module_interface.variables@[m].name@ == name;
                assert(imports[i] == init[i]);
                assert(imports[i].module_interface.variables@[m].name@ == name);
            } else {
                let m = k - before.len();
                assert(added[m] == last.module_interface.variables@[m]@);
                assert(imports[imports.len() - 1].module_interface.variables@[m].name@ == name);
            }
        }
        if imports_name(imports, name) {
            let (i, m) = choose|i: int, m: int|
                0 <= i < imports.len() && 0 <= m < imports[i].module_interface.variables@.len()
                    && #[trigger] imports[i].module_interface.variables@[m].name@ == name;
            if i < imports.len() - 1 {
                assert(init[i] == imports[i]);
                assert(init[i].module_interface.variables@[m].name@ == name);
                assert(imports_name(init, name));
                let k = choose|k: int| 0 <= k < before.len() && #[trigger] before[k].0 == name;
                assert(all[k] == before[k]);
            } else {
                assert(added[m] == last.module_interface.variables@[m]@);
                assert(all[before.len() + m] == added[m]);
                assert(all[before.len() + m].0 == name);
            }
        }
    }
}

/// The names in scope at the top level of a module are exactly the names
/// of the variables of every one of its imports' interfaces, of its
/// foreign imports and of its definitions.
pub proof fn lemma_environment_domain(module: Module, name: Seq<char>)
    ensures
        module_environment(module).contains_key(name) <==> (imports_name(module.imports@, name) || (
        exists|j: int|
            0 <= j < module.import_foreigns@.len() && #[trigger] module.import_foreigns@[j].name@
                == name) || (exists|j: int|
            0 <= j < module.definitions@.len() && #[trigger] module.definitions@[j].defined_name()
                == name)),
{
    let entries = environment_entries(module);
    let imported = imported_entries(module.imports@);
    let foreigns = module.import_foreigns@.map_values(
        |f: crate::items::ImportForeign| (f.name@, f.type_@),
    );
    let definitions = module.definitions@.map_values(
        |d: crate::syntax::Definition| (d.defined_name(), d.defined_type()@),
    );
    assert(entries == imported + foreigns + definitions);
    lemma_entries_map_domain(entries);
    lemma_imported_names(module.imports@, name);
    if module_environment(module).contains_key(name) {
        let k = choose|k: int| 0 <= k < entries.len() && entries[k].0 == name;
        if k < imported.len() {
            assert(imported[k] == entries[k]);
        } else if k < imported.len() + foreigns.len() {
            assert(module.import_foreigns@[k - imported.len()].name@ == name);
        } else {
            assert(module.definitions@[k - imported.len() - foreigns.len()].defined_name() == name);
        }
    }
    if imports_name(module.imports@, name) {
        let k = choose|k: int| 0 <= k < imported.len() && #[trigger] imported[k].0 == name;
        assert(entries[k] == imported[k]);
    }
    if exists|j: int|
        0 <= j < module.import_foreigns@.len() && #[trigger] module.import_foreigns@[j].name@
            == name {
        let j = choose|j: int|
            0 <= j < module.import_foreigns@.len() && #[trigger] module.import_foreigns@[j].name@
                == name;
        assert(entries[imported.len() + j] == foreigns[j]);
    }
    if exists|j: int|
        0 <= j < module.definitions@.len() && #[trigger] module.definitions@[j].defined_name()
            == name {
        let j = choose|j: int|
            0 <= j < module.definitions@.len() && #[trigger] module.definitions@[j].defined_name()
                == name;
        assert(entries[imported.len() + foreigns.len() + j] == definitions[j]);
    }
}

proof fn lemma_imported_entries_concat(first: Seq<Import>, second: Seq<Import>)
    ensures
        imported_entries(first + second) == imported_entries(first) + imported_entries(second),
    decreases second.len(),
{
    if second.len() == 0 {
        assert(first + second =~= first);
        assert(imported_entries(first) + imported_entries(second) =~= imported_entries(first));
    } else {
        lemma_imported_entries_concat(first, second.drop_last());
        assert((first + second).drop_last() =~= first + second.drop_last());
        assert((first + second).last() == second.last());
        assert(imported_entries(first + second) =~= imported_entries(first) + imported_entries(
            second,
        ));
    }
}

/// A variable of an import is in scope at the top level of a module with
/// the type that the import's interface gives it, unless a later variable
/// of that interface or of a later import's, a foreign import or a
/// definition has its name.
pub proof fn lemma_imported_variable_in_scope(module: Module, i: int, k: int)
    requires
        0 <= i < module.imports@.len(),
        0 <= k < module.imports@[i].module_interface.variables@.len(),
        forall|m: int|
            k < m < module.imports@[i].module_interface.variables@.len()
                ==> #[trigger] module.imports@[i].module_interface.variables@[m].name@
                != module.imports@[i].module_interface.variables@[k].name@,
        forall|later: int, m: int|
            i < later < module.imports@.len() && 0 <= m
                < module.imports@[later].module_interface.variables@.len()
                ==> #[trigger] module.imports@[later].module_interface.variables@[m].name@
                != module.imports@[i].module_interface.variables@[k].name@,
        forall|j: int|
            0 <= j < module.import_foreigns@.len() ==> #[trigger] module.import_foreigns@[j].name@
                != module.imports@[i].module_interface.variables@[k].name@,
        forall|j: int|
            0 <= j < module.definitions@.len() ==> #[trigger] module.definitions@[j].defined_name()
                != module.imports@[i].module_interface.variables@[k].name@,
    ensures
        module_environment(module).contains_key(
            module.imports@[i].module_interface.variables@[k].name@,
        ),
        module_environment(module)[module.imports@[i].module_interface.variables@[k].name@]
            == module.imports@[i].module_interface.variables@[k].type_@,
{
    let imports = module.imports@;
    let variable = imports[i].module_interface.variables@[k];
    let name = variable.name@;
    let before = imports.take(i);
    let after = imports.skip(i + 1);
    let own = typed_names_model(imports[i].module_interface.variables@);
    assert(imports =~= before.push(imports[i]) + after);
    lemma_imported_entries_concat(before.push(imports[i]), after);
    assert(before.push(imports[i]).drop_last() =~= before);
    let imported = imported_entries(imports);
    assert(imported == imported_entries(before) + own + imported_entries(after));
    assert(!imports_name(after, name)) by {
        if imports_name(after, name) {
            let (a, m) = choose|a: int, m: int|
                0 <= a < after.len() && 0 <= m < after[a].module_interface.variables@.len()
                    && #[trigger] after[a].module_interface.variables@[m].name@ == name;
            assert(after[a] == imports[i + 1 + a]);
            assert(imports[i + 1 + a].module_interface.variables@[m].name@ == name);
        }
    }
    lemma_imported_names(after, name);
    let entries = environment_entries(module);
    let foreigns = module.import_foreigns@.map_values(
        |f: crate::items::ImportForeign| (f.name@, f.type_@),
    );
    let definitions = module.definitions@.map_values(
        |d: crate::syntax::Definition| (d.defined_name(), d.defined_type()@),
    );
    assert(entries == imported + foreigns + definitions);
    let start = imported_entries(before).len();
    let index = start + k;
    assert(entries[index] == own[k]);
    assert(own[k] == variable@);
    assert forall|m: int| index < m < entries.len() implies entries[m].0 != entries[index].0 by {
        if m < start + own.len() {
            assert(entries[m] == own[m - start]);
            assert(own[m - start] == imports[i].module_interface.variables@[m - start]@);
        } else if m < imported.len() {
            let n = m - start - own.len();
            assert(entries[m] == imported_entries(after)[n]);
            if imported_entries(after)[n].0 == name {
                assert(exists|q: int|
                    0 <= q < imported_entries(after).len() && #[trigger] imported_entries(
                        after,
                    )[q].0 == name);
            }
        } else if m < imported.len() + foreigns.len() {
            assert(entries[m].0 == module.import_foreigns@[m - imported.len()].name@);
        } else {
            assert(entries[m].0 == module.definitions@[m - imported.len()
                - foreigns.len()].defined_name());
        }
    }
    lemma_entries_map_last(entries, index);
}

/// A definition of a module is in scope at its top level with its own
/// type, over any import or foreign import of its name, unless a later
/// definition has its name.
pub proof fn lemma_definition_in_scope(module: Module, i: int)
    requires
        0 <= i < module.definitions@.len(),
        forall|j: int|
            i < j < module.definitions@.len() ==> #[trigger] module.definitions@[j].defined_name()
                != module.definitions@[i].defined_name(),
    ensures
        module_environment(module).contains_key(module.definitions@[i].defined_name()),
        module_environment(module)[module.definitions@[i].defined_name()]
            == module.definitions@[i].defined_type()@,
{
    let entries = environment_entries(module);
    let before = imported_entries(module.imports@) + module.import_foreigns@.map_values(
        |f: crate::items::ImportForeign| (f.name@, f.type_@),
    );
    let index = before.len() + i;
    assert forall|j: int| index < j < entries.len() implies entries[j].0 != entries[index].0 by {
        assert(entries[j].0 == module.definitions@[j - before.len()].defined_name());
    }
    lemma_entries_map_last(entries, index);
}

/// A foreign import of a module is in scope at its top level with its
/// declared type, over any import of its name, unless a later foreign
/// import or a definition has its name.
pub proof fn lemma_foreign_import_in_scope(module: Module, i: int)
    requires
        0 <= i < module.import_foreigns@.len(),
        forall|j: int|
            i < j < module.import_foreigns@.len() ==> #[trigger] module.import_foreigns@[j].name@
                != module.import_foreigns@[i].name@,
        forall|j: int|
            0 <= j < module.definitions@.len() ==> #[trigger] module.definitions@[j].defined_name()
                != module.import_foreigns@[i].name@,
    ensures
        module_environment(module).contains_key(module.import_foreigns@[i].name@),
        module_environment(module)[module.import_foreigns@[i].name@]
            == module.import_foreigns@[i].type_@,
{
    let entries = environment_entries(module);
    let imported = imported_entries(module.imports@);
    let foreigns = module.import_foreigns@.map_values(
        |f: crate::items::ImportForeign| (f.name@, f.type_@),
    );
    let index = imported.len() + i;
    assert forall|j: int| index < j < entries.len() implies entries[j].0 != entries[index].0 by {
        if j < imported.len() + foreigns.len() {
            assert(entries[j].0 == module.import_foreigns@[j - imported.len()].name@);
        } else {
            assert(entries[j].0 == module.definitions@[j - imported.len()
                - foreigns.len()].defined_name());
        }
    }
    lemma_entries_map_last(entries, index);
}

/// Creates the type environments of modules.
pub struct ModuleEnvironmentCreator {}

impl ModuleEnvironmentCreator {
    pub fn new() -> (creator: Arc<Self>) {
        Arc::new(ModuleEnvironmentCreator {})
    }

    /// The types of the variables in scope at the top level of `module`:
    /// what its imports export, its foreign imports and its definitions,
    /// where a later one of these replaces an earlier one of the same name.
    pub fn create(&self, module: &Module) -> (environment: TypeEnvironment)
        ensures
            environment@ == module_environment(*module),
    {
        let mut environment = TypeEnvironment { map: StringHashMap::new() };
        let ghost mut bound: Seq<(Seq<char>, TypeModel)> = seq![];
        assert(environment@ =~= entries_map(bound));
        let mut i: usize = 0;
        while i < module.imports.len()
            invariant
                i <= module.imports@.len(),
                bound == imported_entries(module.imports@.take(i as int)),
                environment@ == entries_map(bound),
            decreases module.imports@.len() - i,
        {
            let variables = module.imports[i].module_interface.variables();
            let ghost before = bound;
            let mut j: usize = 0;
            assert(typed_names_model(variables@.take(0)) =~= Seq::<(Seq<char>,
                TypeModel)>::empty());
            assert(before + typed_names_model(variables@.take(0)) =~= before);
            while j < variables.len()
                invariant
                    j <= variables@.len(),
                    variables@ == module.imports@[i as int].module_interface.variables@,
                    bound == before + typed_names_model(variables@.take(j as int)),
                    environment@ == entries_map(bound),
                decreases variables@.len() - j,
            {
                let variable = &variables[j];
                proof {
                    lemma_entries_map_push(bound, variable@);
                    assert(before + typed_names_model(variables@.take(j + 1)) =~= bound.push(
                        variable@,
                    ));
                    bound = bound.push(variable@);
                }
                environment.map.insert(String::from_str(variable.name.as_str()),
                    variable.type_.clone());
                assert(environment@ =~= entries_map(bound));
                j = j + 1;
            }
            proof {
                assert(variables@.take(j as int) =~= variables@);
                assert(module.imports@.take(i + 1).drop_last() =~= module.imports@.take(i as int));
            }
            i = i + 1;
        }
        assert(module.imports@.take(i as int) =~= module.imports@);
        let ghost imported = bound;
        let mut k: usize = 0;
        while k < module.import_foreigns.len()
            invariant
                k <= module.import_foreigns@.len(),
                bound == imported + module.import_foreigns@.take(k as int).map_values(
                    |f: crate::items::ImportForeign| (f.name@, f.type_@),
                ),
                environment@ == entries_map(bound),
            decreases module.import_foreigns@.len() - k,
        {
            let declaration = &module.import_foreigns[k];
            proof {
                lemma_entries_map_push(bound, (declaration.name@, declaration.type_@));
                assert(imported + module.import_foreigns@.take(k + 1).map_values(
                    |f: crate::items::ImportForeign| (f.name@, f.type_@),
                ) =~= bound.push((declaration.name@, declaration.type_@)));
                bound = bound.push((declaration.name@, declaration.type_@));
            }
            environment.map.insert(String::from_str(declaration.name.as_str()),
                declaration.type_.clone());
            assert(environment@ =~= entries_map(bound));
            k = k + 1;
        }
        assert(module.import_foreigns@.take(k as int) =~= module.import_foreigns@);
        let ghost declared = bound;
        let mut l: usize = 0;
        while l < module.definitions.len()
            invariant
                l <= module.definitions@.len(),
                bound == declared + module.definitions@.take(l as int).map_values(
                    |d: crate::syntax::Definition| (d.defined_name(), d.defined_type()@),
                ),
                environment@ == entries_map(bound),
            decreases module.definitions@.len() - l,
        {
            let definition = &module.definitions[l];
            proof {
                lemma_entries_map_push(bound, (definition.defined_name(),
                    definition.defined_type()@));
                assert(declared + module.definitions@.take(l + 1).map_values(
                    |d: crate::syntax::Definition| (d.defined_name(), d.defined_type()@),
                ) =~= bound.push((definition.defined_name(), definition.defined_type()@)));
                bound = bound.push((definition.defined_name(), definition.defined_type()@));
            }
            environment.map.insert(String::from_str(definition.name()), definition.type_().clone());
            assert(environment@ =~= entries_map(bound));
            l = l + 1;
        }
        assert(module.definitions@.take(l as int) =~= module.definitions@);
        environment
    }
}

} // verus!
