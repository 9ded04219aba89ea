//! Modules of the Sloth language.
use vstd::prelude::*;
use crate::items::{
    Export, ExportForeign, Import, ImportForeign, ModulePath, Package, TypeDefinition,
    import_foreign_types_transformed, lemma_import_foreign_types_transformed_keeps,
    lemma_type_definition_transformed_keeps, type_definition_transformed,
};
use crate::sequences::{
    copy_all, lemma_sequence_step, lemma_sequence_transformed_keeps, sequence_transformed, views,
};
use crate::syntax::{
    definition_transformed, definition_types_transformed, expression_step,
    lemma_definition_transformed_keeps, lemma_definition_types_transformed_keeps, type_step,
        witness, Definition, Expression, Type,
};

verus! {

/// A module: its path, what it exports to modules and to foreign code, what
/// it imports from modules and from foreign code, its type definitions and
/// its definitions.
#[derive(Debug)]
pub struct Module {
    pub path: ModulePath,
    pub type_definitions: Vec<TypeDefinition>,
    pub definitions: Vec<Definition>,
    pub export: Export,
    pub export_foreign: ExportForeign,
    pub imports: Vec<Import>,
    pub import_foreigns: Vec<ImportForeign>,
}

/// Whether `result` keeps everything of `module` but, possibly, its type
/// definitions, its foreign imports and its definitions.
pub open spec fn keeps_header(module: Module, result: Module) -> bool {
    &&& result.path@ == module.path@
    &&& result.export@ == module.export@
    &&& result.export_foreign@ == module.export_foreign@
    &&& views(result.imports@) == views(module.imports@)
}

/// Whether transforming the bodies of the definitions of `module` in order,
/// each as `step` relates expressions, yields `result`: the module with the
/// transformed definitions and nothing else changed, or the first error.
pub open spec fn module_expressions_transformed<E>(
    step: spec_fn(Expression, Result<Expression, E>) -> bool,
    module: Module,
    result: Result<Module, E>,
) -> bool {
    exists|d: Result<Seq<Definition>, E>|
        #[trigger] witness(d) && sequence_transformed(
            |x: Definition, r: Result<Definition, E>| definition_transformed(step, x, r),
            module.definitions@,
            d,
        ) && (d is Err ==> result == Err::<Module, E>(d->Err_0)) && (d is Ok ==> result is Ok && {
            let m = result->Ok_0;
            &&& keeps_header(module, m)
            &&& views(m.import_foreigns@) == views(module.import_foreigns@)
            &&& views(m.type_definitions@) == views(module.type_definitions@)
            &&& m.definitions@ == d->Ok_0
        })
}

/// Whether transforming the types of `module` yields `result`: the types of
/// its foreign imports, then of its type definitions, then in its
/// definitions, each in order; the first error stops the transformation.
/// What it imports from other modules is kept as it is.
pub open spec fn module_types_transformed<E>(
    step: spec_fn(Type, Result<Type, E>) -> bool,
    module: Module,
    result: Result<Module, E>,
) -> bool {
    exists|f: Result<Seq<ImportForeign>, E>|
        #[trigger] witness(f) && sequence_transformed(
            |x: ImportForeign, r: Result<ImportForeign, E>|
                import_foreign_types_transformed(step, x, r),
            module.import_foreigns@,
            f,
        ) && (f is Err ==> result == Err::<Module, E>(f->Err_0)) && (f is Ok ==> exists|
            t: Result<Seq<TypeDefinition>, E>,
        |
            #[trigger] witness(t) && sequence_transformed(
                |x: TypeDefinition, r: Result<TypeDefinition, E>|
                    type_definition_transformed(step, x, r),
                module.type_definitions@,
                t,
            ) && (t is Err ==> result == Err::<Module, E>(t->Err_0)) && (t is Ok ==> exists|
                d: Result<Seq<Definition>, E>,
            |
                #[trigger] witness(d) && sequence_transformed(
                    |x: Definition, r: Result<Definition, E>|
                        definition_types_transformed(step, x, r),
                    module.definitions@,
                    d,
                ) && (d is Err ==> result == Err::<Module, E>(d->Err_0)) && (d is Ok ==> result is
                    Ok
                    && {
                    let m = result->Ok_0;
                    &&& keeps_header(module, m)
                    &&& m.import_foreigns@ == f->Ok_0
                    &&& m.type_definitions@ == t->Ok_0
                    &&& m.definitions@ == d->Ok_0
                })))
}

impl Module {
    pub fn new(
        path: ModulePath,
        export: Export,
        export_foreign: ExportForeign,
        imports: Vec<Import>,
        import_foreigns: Vec<ImportForeign>,
        type_definitions: Vec<TypeDefinition>,
        definitions: Vec<Definition>,
    ) -> (module: Self)
        ensures
            module == (Module {
                path,
                type_definitions,
                definitions,
                export,
                export_foreign,
                imports,
                import_foreigns,
            }),
    {
        Module {
            path,
            type_definitions,
            definitions,
            export,
            export_foreign,
            imports,
            import_foreigns,
        }
    }

    /// An empty module of an unnamed package.
    pub fn dummy() -> (module: Self)
        ensures
            module.path.package.name@ == Seq::<char>::empty(),
            module.path.package.version@ == Seq::<char>::empty(),
            module.path.components@.len() == 0,
            module.export.names@.len() == 0,
            module.export_foreign.names@.len() == 0,
            module.imports@.len() == 0,
            module.import_foreigns@.len() == 0,
            module.type_definitions@.len() == 0,
            module.definitions@.len() == 0,
    {
        Self::from_definitions_and_type_definitions(Vec::new(), Vec::new())
    }

    /// A module of an unnamed package that holds only `definitions`.
    pub fn from_definitions(definitions: Vec<Definition>) -> (module: Self)
        ensures
            module.path.package.name@ == Seq::<char>::empty(),
            module.path.package.version@ == Seq::<char>::empty(),
            module.path.components@.len() == 0,
            module.export.names@.len() == 0,
            module.export_foreign.names@.len() == 0,
            module.imports@.len() == 0,
            module.import_foreigns@.len() == 0,
            module.type_definitions@.len() == 0,
            module.definitions == definitions,
    {
        Self::from_definitions_and_type_definitions(Vec::new(), definitions)
    }

    /// A module of an unnamed package that holds only `type_definitions`
    /// and `definitions`.
    pub fn from_definitions_and_type_definitions(
        type_definitions: Vec<TypeDefinition>,
        definitions: Vec<Definition>,
    ) -> (module: Self)
        ensures
            module.path.package.name@ == Seq::<char>::empty(),
            module.path.package.version@ == Seq::<char>::empty(),
            module.path.components@.len() == 0,
            module.export.names@.len() == 0,
            module.export_foreign.names@.len() == 0,
            module.imports@.len() == 0,
            module.import_foreigns@.len() == 0,
            module.type_definitions == type_definitions,
            module.definitions == definitions,
    {
        proof {
            reveal_strlit("");
        }
        Self::new(
            ModulePath::new(Package::new("", ""), Vec::new()),
            Export::new(Vec::new()),
            ExportForeign::new(Vec::new()),
            Vec::new(),
            Vec::new(),
            type_definitions,
            definitions,
        )
    }

    pub fn path(&self) -> (path: &ModulePath)
        ensures
            *path == self.path,
    {
        &self.path
    }

    pub fn type_definitions(&self) -> (type_definitions: &[TypeDefinition])
        ensures
            type_definitions@ == self.type_definitions@,
    {
        self.type_definitions.as_slice()
    }

    pub fn definitions(&self) -> (definitions: &[Definition])
        ensures
            definitions@ == self.definitions@,
    {
        self.definitions.as_slice()
    }

    pub fn export(&self) -> (export: &Export)
        ensures
            *export == self.export,
    {
        &self.export
    }

    pub fn export_foreign(&self) -> (export_foreign: &ExportForeign)
        ensures
            *export_foreign == self.export_foreign,
    {
        &self.export_foreign
    }

    pub fn imports(&self) -> (imports: &[Import])
        ensures
            imports@ == self.imports@,
    {
        self.imports.as_slice()
    }

    pub fn import_foreigns(&self) -> (import_foreigns: &[ImportForeign])
        ensures
            import_foreigns@ == self.import_foreigns@,
    {
        self.import_foreigns.as_slice()
    }

    /// This module with the body of each definition transformed bottom-up by
    /// `transform`, in order.
    pub fn transform_expressions<E, F: Fn(&Expression) -> Result<Expression, E>>(
        &self,
        transform: &F,
    ) -> (result: Result<Self, E>)
        requires
            forall|expression: &Expression| transform.requires((expression,)),
        ensures
            module_expressions_transformed(expression_step(transform), *self, result),
    {
        let ghost element = |x: Definition, r: Result<Definition, E>|
            definition_transformed(expression_step(transform), x, r);
        let mut definitions: Vec<Definition> = Vec::new();
        let mut i: usize = 0;
        assert(self.definitions@.take(0) =~= Seq::<Definition>::empty());
        while i < self.definitions.len()
            invariant
                i <= self.definitions@.len(),
                forall|expression: &Expression| transform.requires((expression,)),
                element == (|x: Definition, r: Result<Definition, E>|
                    definition_transformed(expression_step(transform), x, r)),
                sequence_transformed(
                    element,
                    self.definitions@.take(i as int),
                    Ok::<Seq<Definition>, E>(definitions@),
                ),
            decreases self.definitions@.len() - i,
        {
            let d = self.definitions[i].transform_expressions(transform);
            proof {
                lemma_sequence_step(element, self.definitions@, i as int, definitions@, d);
            }
            match d {
                Err(error) => {
                    assert(witness(Err::<Seq<Definition>, E>(error)));
                    return Err(error);
                },
                Ok(definition) => definitions.push(definition),
            }
            i = i + 1;
        }
        assert(self.definitions@.take(i as int) =~= self.definitions@);
        assert(witness(Ok::<Seq<Definition>, E>(definitions@)));
        Ok(
            Self::new(
                self.path.clone(),
                self.export.clone(),
                self.export_foreign.clone(),
                copy_all(&self.imports),
                copy_all(&self.import_foreigns),
                copy_all(&self.type_definitions),
                definitions,
            ),
        )
    }

    /// This module with the types of its foreign imports, of its type
    /// definitions and in its definitions transformed bottom-up by
    /// `transform`, in that order.
    pub fn transform_types<E, F: Fn(&Type) -> Result<Type, E>>(&self, transform: &F) -> (result:
        Result<Self, E>)
        requires
            forall|type_: &Type| transform.requires((type_,)),
        ensures
            module_types_transformed(type_step(transform), *self, result),
    {
        let ghost step = type_step(transform);
        let ghost foreign_element = |x: ImportForeign, r: Result<ImportForeign, E>|
            import_foreign_types_transformed(step, x, r);
        let mut import_foreigns: Vec<ImportForeign> = Vec::new();
        let mut i: usize = 0;
        assert(self.import_foreigns@.take(0) =~= Seq::<ImportForeign>::empty());
        while i < self.import_foreigns.len()
            invariant
                i <= self.import_foreigns@.len(),
                forall|type_: &Type| transform.requires((type_,)),
                step == type_step(transform),
                foreign_element == (|x: ImportForeign, r: Result<ImportForeign, E>|
                    import_foreign_types_transformed(step, x, r)),
                sequence_transformed(
                    foreign_element,
                    self.import_foreigns@.take(i as int),
                    Ok::<Seq<ImportForeign>, E>(import_foreigns@),
                ),
            decreases self.import_foreigns@.len() - i,
        {
            let x = self.import_foreigns[i].transform_types(transform);
            proof {
                lemma_sequence_step(foreign_element, self.import_foreigns@, i as int,
                    import_foreigns@, x);
            }
            match x {
                Err(error) => {
                    assert(witness(Err::<Seq<ImportForeign>, E>(error)));
                    return Err(error);
                },
                Ok(import) => import_foreigns.push(import),
            }
            i = i + 1;
        }
        assert(self.import_foreigns@.take(i as int) =~= self.import_foreigns@);
        assert(witness(Ok::<Seq<ImportForeign>, E>(import_foreigns@)));
        let ghost type_element = |x: TypeDefinition, r: Result<TypeDefinition, E>|
            type_definition_transformed(step, x, r);
        let mut type_definitions: Vec<TypeDefinition> = Vec::new();
        let mut j: usize = 0;
        assert(self.type_definitions@.take(0) =~= Seq::<TypeDefinition>::empty());
        while j < self.type_definitions.len()
            invariant
                j <= self.type_definitions@.len(),
                forall|type_: &Type| transform.requires((type_,)),
                step == type_step(transform),
                foreign_element == (|x: ImportForeign, r: Result<ImportForeign, E>|
                    import_foreign_types_transformed(step, x, r)),
                sequence_transformed(
                    foreign_element,
                    self.import_foreigns@,
                    Ok::<Seq<ImportForeign>, E>(import_foreigns@),
                ),
                type_element == (|x: TypeDefinition, r: Result<TypeDefinition, E>|
                    type_definition_transformed(step, x, r)),
                sequence_transformed(
                    type_element,
                    self.type_definitions@.take(j as int),
                    Ok::<Seq<TypeDefinition>, E>(type_definitions@),
                ),
            decreases self.type_definitions@.len() - j,
        {
            let x = self.type_definitions[j].transform_types(transform);
            proof {
                lemma_sequence_step(type_element, self.type_definitions@, j as int,
                    type_definitions@, x);
            }
            match x {
                Err(error) => {
                    assert(witness(Ok::<Seq<ImportForeign>, E>(import_foreigns@)));
                    assert(witness(Err::<Seq<TypeDefinition>, E>(error)));
                    return Err(error);
                },
                Ok(definition) => type_definitions.push(definition),
            }
            j = j + 1;
        }
        assert(self.type_definitions@.take(j as int) =~= self.type_definitions@);
        assert(witness(Ok::<Seq<TypeDefinition>, E>(type_definitions@)));
        let ghost definition_element = |x: Definition, r: Result<Definition, E>|
            definition_types_transformed(step, x, r);
        let mut definitions: Vec<Definition> = Vec::new();
        let mut k: usize = 0;
        assert(self.definitions@.take(0) =~= Seq::<Definition>::empty());
        while k < self.definitions.len()
            invariant
                k <= self.definitions@.len(),
                forall|type_: &Type| transform.requires((type_,)),
                step == type_step(transform),
                foreign_element == (|x: ImportForeign, r: Result<ImportForeign, E>|
                    import_foreign_types_transformed(step, x, r)),
                sequence_transformed(
                    foreign_element,
                    self.import_foreigns@,
                    Ok::<Seq<ImportForeign>, E>(import_foreigns@),
                ),
                type_element == (|x: TypeDefinition, r: Result<TypeDefinition, E>|
                    type_definition_transformed(step, x, r)),
                sequence_transformed(
                    type_element,
                    self.type_definitions@,
                    Ok::<Seq<TypeDefinition>, E>(type_definitions@),
                ),
                definition_element == (|x: Definition, r: Result<Definition, E>|
                    definition_types_transformed(step, x, r)),
                sequence_transformed(
                    definition_element,
                    self.definitions@.take(k as int),
                    Ok::<Seq<Definition>, E>(definitions@),
                ),
            decreases self.definitions@.len() - k,
        {
            let x = self.definitions[k].transform_types(transform);
            proof {
                lemma_sequence_step(definition_element, self.definitions@, k as int, definitions@,
                    x);
            }
            match x {
                Err(error) => {
                    assert(witness(Ok::<Seq<ImportForeign>, E>(import_foreigns@)));
                    assert(witness(Ok::<Seq<TypeDefinition>, E>(type_definitions@)));
                    assert(witness(Err::<Seq<Definition>, E>(error)));
                    return Err(error);
                },
                Ok(definition) => definitions.push(definition),
            }
            k = k + 1;
        }
        assert(self.definitions@.take(k as int) =~= self.definitions@);
        assert(witness(Ok::<Seq<Definition>, E>(definitions@)));
        Ok(
            Self::new(
                self.path.clone(),
                self.export.clone(),
                self.export_foreign.clone(),
                copy_all(&self.imports),
                import_foreigns,
                type_definitions,
                definitions,
            ),
        )
    }
}

} // verus!

verus! {

/// Transforming the expressions of a module with a step that keeps every
/// expression, up to its view, keeps the module: it never fails, and every
/// part of the result has the view of the same part of the module.
pub proof fn lemma_module_expressions_kept<E>(
    step: spec_fn(Expression, Result<Expression, E>) -> bool,
    module: Module,
    result: Result<Module, E>,
)
    requires
        forall|x: Expression, r: Result<Expression, E>|
            #[trigger] step(x, r) ==> r is Ok && r->Ok_0@ == x@,
        module_expressions_transformed(step, module, result),
    ensures
        result is Ok,
        keeps_header(module, result->Ok_0),
        views(result->Ok_0.import_foreigns@) == views(module.import_foreigns@),
        views(result->Ok_0.type_definitions@) == views(module.type_definitions@),
        views(result->Ok_0.definitions@) == views(module.definitions@),
{
    let element = |x: Definition, r: Result<Definition, E>| definition_transformed(step, x, r);
    let d = choose|d: Result<Seq<Definition>, E>|
        #[trigger] witness(d) && sequence_transformed(element, module.definitions@, d) && (d is Err
            ==> result == Err::<Module, E>(d->Err_0)) && (d is Ok ==> result is Ok && {
            let m = result->Ok_0;
            &&& keeps_header(module, m)
            &&& views(m.import_foreigns@) == views(module.import_foreigns@)
            &&& views(m.type_definitions@) == views(module.type_definitions@)
            &&& m.definitions@ == d->Ok_0
        });
    assert forall|x: Definition, r: Result<Definition, E>| #[trigger] element(x, r) implies r is Ok
        && r->Ok_0@ == x@ by {
        lemma_definition_transformed_keeps(step, x, r);
    }
    lemma_sequence_transformed_keeps(element, module.definitions@, d);
}

} // verus!

verus! {

/// Transforming the types of a module with a step that keeps every type,
/// up to its view, keeps the module: it never fails, and every part of the
/// result has the view of the same part of the module.
pub proof fn lemma_module_types_kept<E>(
    step: spec_fn(Type, Result<Type, E>) -> bool,
    module: Module,
    result: Result<Module, E>,
)
    requires
        forall|x: Type, r: Result<Type, E>| #[trigger] step(x, r) ==> r is Ok && r->Ok_0@ == x@,
        module_types_transformed(step, module, result),
    ensures
        result is Ok,
        keeps_header(module, result->Ok_0),
        views(result->Ok_0.import_foreigns@) == views(module.import_foreigns@),
        views(result->Ok_0.type_definitions@) == views(module.type_definitions@),
        views(result->Ok_0.definitions@) == views(module.definitions@),
{
    let foreign = |x: ImportForeign, r: Result<ImportForeign, E>|
        import_foreign_types_transformed(step, x, r);
    let types = |x: TypeDefinition, r: Result<TypeDefinition, E>|
        type_definition_transformed(step, x, r);
    let definitions = |x: Definition, r: Result<Definition, E>|
        definition_types_transformed(step, x, r);
    assert forall|x: ImportForeign, r: Result<ImportForeign, E>| #[trigger] foreign(x, r) implies r
        is Ok && r->Ok_0@ == x@ by {
        lemma_import_foreign_types_transformed_keeps(step, x, r);
    }
    assert forall|x: TypeDefinition, r: Result<TypeDefinition, E>| #[trigger] types(x, r) implies r
        is Ok && r->Ok_0@ == x@ by {
        lemma_type_definition_transformed_keeps(step, x, r);
    }
    assert forall|x: Definition, r: Result<Definition, E>| #[trigger] definitions(x, r) implies r
        is Ok && r->Ok_0@ == x@ by {
        lemma_definition_types_transformed_keeps(step, x, r);
    }
    let f = choose|f: Result<Seq<ImportForeign>, E>|
        #[trigger] witness(f) && sequence_transformed(foreign, module.import_foreigns@, f) && (f is
            Err
            ==> result == Err::<Module, E>(f->Err_0)) && (f is Ok ==> exists|
            t: Result<Seq<TypeDefinition>, E>,
        |
            #[trigger] witness(t) && sequence_transformed(types, module.type_definitions@, t) && (t
                is Err
                ==> result == Err::<Module, E>(t->Err_0)) && (t is Ok ==> exists|
                d: Result<Seq<Definition>, E>,
            |
                #[trigger] witness(d) && sequence_transformed(definitions, module.definitions@, d)
                    && (
                d is Err ==> result == Err::<Module, E>(d->Err_0)) && (d is Ok ==> result is Ok && {
                    let m = result->Ok_0;
                    &&& keeps_header(module, m)
                    &&& m.import_foreigns@ == f->Ok_0
                    &&& m.type_definitions@ == t->Ok_0
                    &&& m.definitions@ == d->Ok_0
                })));
    lemma_sequence_transformed_keeps(foreign, module.import_foreigns@, f);
    let t = choose|t: Result<Seq<TypeDefinition>, E>|
        #[trigger] witness(t) && sequence_transformed(types, module.type_definitions@, t) && (t is
            Err
            ==> result == Err::<Module, E>(t->Err_0)) && (t is Ok ==> exists|
            d: Result<Seq<Definition>, E>,
        |
            #[trigger] witness(d) && sequence_transformed(definitions, module.definitions@, d) && (
            d is Err ==> result == Err::<Module, E>(d->Err_0)) && (d is Ok ==> result is Ok && {
                let m = result->Ok_0;
                &&& keeps_header(module, m)
                &&& m.import_foreigns@ == f->Ok_0
                &&& m.type_definitions@ == t->Ok_0
                &&& m.definitions@ == d->Ok_0
            }));
    lemma_sequence_transformed_keeps(types, module.type_definitions@, t);
    let d = choose|d: Result<Seq<Definition>, E>|
        #[trigger] witness(d) && sequence_transformed(definitions, module.definitions@, d) && (d is
            Err
            ==> result == Err::<Module, E>(d->Err_0)) && (d is Ok ==> result is Ok && {
            let m = result->Ok_0;
            &&& keeps_header(module, m)
            &&& m.import_foreigns@ == f->Ok_0
            &&& m.type_definitions@ == t->Ok_0
            &&& m.definitions@ == d->Ok_0
        });
    lemma_sequence_transformed_keeps(definitions, module.definitions@, d);
}

} // verus!
