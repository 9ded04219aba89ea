//! Modules of the Ein language.
use vstd::prelude::*;
use crate::items::{
    lemma_type_definition_transformed_keeps, type_definition_transformed, Export,
    FfiPackageInterface, Import, ModulePath, Package, TypeDefinition,
};
use crate::sequences::{
    copy_all, lemma_sequence_step, lemma_sequence_transformed_keeps, sequence_transformed, views,
};
use crate::syntax::{
    definition_models, definition_transformed, definition_types_transformed, expression_step,
    lemma_definition_transformed_keeps, lemma_definition_transformed_weaken,
    lemma_definition_types_transformed_keeps, type_step, witness, Definition, Expression,
    ExpressionModel, Let, Type,
};

verus! {

/// A module: its path, what it exports, what it imports from modules and
/// from foreign packages, its type definitions and its definitions.
#[derive(Debug)]
pub struct Module {
    pub path: ModulePath,
    pub type_definitions: Vec<TypeDefinition>,
    pub definitions: Vec<Definition>,
    pub export: Export,
    pub imports: Vec<Import>,
    pub ffi_imports: Vec<FfiPackageInterface>,
}

/// Whether `result` keeps everything of `module` but, possibly, its type
/// definitions and its definitions.
pub open spec fn keeps_header(module: Module, result: Module) -> bool {
    &&& result.path@ == module.path@
    &&& result.export@ == module.export@
    &&& views(result.imports@) == views(module.imports@)
    &&& views(result.ffi_imports@) == views(module.ffi_imports@)
}

/// The relation that `transform`'s contract gives between a definition and
/// what it makes of it.
pub open spec fn definition_step<E, F: Fn(&Definition) -> Result<Definition, E>>(
    transform: &F,
) -> spec_fn(Definition, Result<Definition, E>) -> bool {
    |definition: Definition, result: Result<Definition, E>|
        transform.ensures((&definition,), result)
}

/// The step that hands the local definitions of a `let` to `element` in
/// order, keeping the rest of the `let`, and keeps any other expression.
pub open spec fn let_definitions_step<E>(
    element: spec_fn(Definition, Result<Definition, E>) -> bool,
) -> spec_fn(Expression, Result<Expression, E>) -> bool {
    |expression: Expression, result: Result<Expression, E>|
        match expression {
            Expression::Let(l) => exists|d: Result<Seq<Definition>, E>|
                #[trigger] witness(d) && sequence_transformed(element, l.definitions@, d) && (d is
                    Err
                    ==> result == Err::<Expression, E>(d->Err_0)) && (d is Ok ==> result is Ok
                    && result->Ok_0@ == ExpressionModel::Let(
                    definition_models(d->Ok_0),
                    Box::new(l.expression@),
                    l.source_information,
                )),
            _ => result is Ok && result->Ok_0@ == expression@,
        }
}

/// Whether rewriting `definition` yields `result`: every local definition
/// in its body, bottom-up, is handed to `element`, and then the definition
/// itself is.
pub open spec fn definition_rewritten<E>(
    element: spec_fn(Definition, Result<Definition, E>) -> bool,
    definition: Definition,
    result: Result<Definition, E>,
) -> bool {
    exists|x: Result<Definition, E>|
        #[trigger] witness(x) && definition_transformed(let_definitions_step(element), definition,
            x)
            && (x is Err ==> result == Err::<Definition, E>(x->Err_0)) && (x is Ok ==> element(
            x->Ok_0,
            result,
        ))
}

/// Whether rewriting the definitions of `module` in order, as
/// [`definition_rewritten`] says, yields `result`; the first error stops the
/// rewriting and everything but the definitions is kept.
pub open spec fn module_definitions_transformed<E>(
    element: spec_fn(Definition, Result<Definition, E>) -> bool,
    module: Module,
    result: Result<Module, E>,
) -> bool {
    exists|d: Result<Seq<Definition>, E>|
        #[trigger] witness(d) && sequence_transformed(
            |x: Definition, r: Result<Definition, E>| definition_rewritten(element, x, r),
            module.definitions@,
            d,
        ) && (d is Err ==> result == Err::<Module, E>(d->Err_0)) && (d is Ok ==> result is Ok && {
            let m = result->Ok_0;
            &&& keeps_header(module, m)
            &&& views(m.type_definitions@) == views(module.type_definitions@)
            &&& m.definitions@ == d->Ok_0
        })
}

/// Whether transforming the bodies of the definitions of `module` in order
/// yields `result`, everything else being kept.
pub open spec fn module_expressions_transformed<E>(
    step: spec_fn(Expression, Result<Expression, E>) -> bool,
    module: Module,
    result: Result<Module, E>,
) -> bool {
    exists|d: Result<Seq<Definition>, E>|
        #[trigger] witness(d) && sequence_transformed(
            |x: Definition, r: Result<Definition, E>| definition_transformed(step, x, r),
            module.definitions@,
            d,
        ) && (d is Err ==> result == Err::<Module, E>(d->Err_0)) && (d is Ok ==> result is Ok && {
            let m = result->Ok_0;
            &&& keeps_header(module, m)
            &&& views(m.type_definitions@) == views(module.type_definitions@)
            &&& m.definitions@ == d->Ok_0
        })
}

/// Whether transforming the types of `module` yields `result`: the types of
/// its type definitions, then in its definitions, each in order; the first
/// error stops the transformation.
pub open spec fn module_types_transformed<E>(
    step: spec_fn(Type, Result<Type, E>) -> bool,
    module: Module,
    result: Result<Module, E>,
) -> bool {
    exists|t: Result<Seq<TypeDefinition>, E>|
        #[trigger] witness(t) && sequence_transformed(
            |x: TypeDefinition, r: Result<TypeDefinition, E>|
                type_definition_transformed(step, x, r),
            module.type_definitions@,
            t,
        ) && (t is Err ==> result == Err::<Module, E>(t->Err_0)) && (t is Ok ==> exists|
            d: Result<Seq<Definition>, E>,
        |
            #[trigger] witness(d) && sequence_transformed(
                |x: Definition, r: Result<Definition, E>|
                    definition_types_transformed(step, x, r),
                module.definitions@,
                d,
            ) && (d is Err ==> result == Err::<Module, E>(d->Err_0)) && (d is Ok ==> result is Ok
                && {
                let m = result->Ok_0;
                &&& keeps_header(module, m)
                &&& m.type_definitions@ == t->Ok_0
                &&& m.definitions@ == d->Ok_0
            }))
}

/// `expression` with the local definitions of a `let` handed to
/// `transform` in order; any other expression is kept.
#[verifier::loop_isolation(false)]
fn rewrite_let_definitions<E, F: Fn(&Definition) -> Result<Definition, E>>(
    expression: &Expression,
    transform: &F,
) -> (result: Result<Expression, E>)
    requires
        forall|definition: &Definition| transform.requires((definition,)),
    ensures
        (let_definitions_step(definition_step(transform)))(*expression, result),
{
    let ghost element = definition_step(transform);
    match expression {
        Expression::Let(l) => {
            let mut definitions: Vec<Definition> = Vec::new();
            let mut i: usize = 0;
            assert(l.definitions@.take(0) =~= Seq::<Definition>::empty());
            while i < l.definitions.len()
                invariant
                    i <= l.definitions@.len(),
                    sequence_transformed(
                        element,
                        l.definitions@.take(i as int),
                        Ok::<Seq<Definition>, E>(definitions@),
                    ),
                decreases l.definitions@.len() - i,
            {
                let x = transform(&l.definitions[i]);
                proof {
                    lemma_sequence_step(element, l.definitions@, i as int, definitions@, x);
                }
                match x {
                    Err(error) => {
                        assert(witness(Err::<Seq<Definition>, E>(error)));
                        return Err(error);
                    },
                    Ok(definition) => definitions.push(definition),
                }
                i = i + 1;
            }
            assert(l.definitions@.take(i as int) =~= l.definitions@);
            assert(witness(Ok::<Seq<Definition>, E>(definitions@)));
            Ok(
                Expression::Let(
                    Let {
                        definitions,
                        expression: Box::new((*l.expression).clone()),
                        source_information: l.source_information.clone(),
                    },
                ),
            )
        },
        _ => Ok(expression.clone()),
    }
}

impl Module {
    pub fn new(
        path: ModulePath,
        export: Export,
        imports: Vec<Import>,
        ffi_imports: Vec<FfiPackageInterface>,
        type_definitions: Vec<TypeDefinition>,
        definitions: Vec<Definition>,
    ) -> (module: Self)
        ensures
            module == (Module { path, type_definitions, definitions, export, imports, ffi_imports
                }),
    {
        Module { path, type_definitions, definitions, export, imports, ffi_imports }
    }

    /// An empty module of an unnamed package.
    pub fn dummy() -> (module: Self)
        ensures
            module.path.package.name@ == Seq::<char>::empty(),
            module.path.package.version@ == Seq::<char>::empty(),
            module.path.components@.len() == 0,
            module.export.names@.len() == 0,
            module.imports@.len() == 0,
            module.ffi_imports@.len() == 0,
            module.type_definitions@.len() == 0,
            module.definitions@.len() == 0,
    {
        Self::from_definitions_and_type_definitions(Vec::new(), Vec::new())
    }

    /// A module of an unnamed package that holds only `definitions`.
    pub fn from_definitions(definitions: Vec<Definition>) -> (module: Self)
        ensures
            module.path.package.name@ == Seq::<char>::empty(),
            module.path.package.version@ == Seq::<char>::empty(),
            module.path.components@.len() == 0,
            module.export.names@.len() == 0,
            module.imports@.len() == 0,
            module.ffi_imports@.len() == 0,
            module.type_definitions@.len() == 0,
            module.definitions == definitions,
    {
        Self::from_definitions_and_type_definitions(Vec::new(), definitions)
    }

    /// A module of an unnamed package that holds only `type_definitions`
    /// and `definitions`.
    pub fn from_definitions_and_type_definitions(
        type_definitions: Vec<TypeDefinition>,
        definitions: Vec<Definition>,
    ) -> (module: Self)
        ensures
            module.path.package.name@ == Seq::<char>::empty(),
            module.path.package.version@ == Seq::<char>::empty(),
            module.path.components@.len() == 0,
            module.export.names@.len() == 0,
            module.imports@.len() == 0,
            module.ffi_imports@.len() == 0,
            module.type_definitions == type_definitions,
            module.definitions == definitions,
    {
        proof {
            reveal_strlit("");
        }
        Self::new(
            ModulePath::new(Package::new("", ""), Vec::new()),
            Export::new(Vec::new()),
            Vec::new(),
            Vec::new(),
            type_definitions,
            definitions,
        )
    }

    pub fn path(&self) -> (path: &ModulePath)
        ensures
            *path == self.path,
    {
        &self.path
    }

    pub fn type_definitions(&self) -> (type_definitions: &[TypeDefinition])
        ensures
            type_definitions@ == self.type_definitions@,
    {
        self.type_definitions.as_slice()
    }

    pub fn definitions(&self) -> (definitions: &[Definition])
        ensures
            definitions@ == self.definitions@,
    {
        self.definitions.as_slice()
    }

    pub fn export(&self) -> (export: &Export)
        ensures
            *export == self.export,
    {
        &self.export
    }

    pub fn imports(&self) -> (imports: &[Import])
        ensures
            imports@ == self.imports@,
    {
        self.imports.as_slice()
    }

    pub fn ffi_imports(&self) -> (ffi_imports: &[FfiPackageInterface])
        ensures
            ffi_imports@ == self.ffi_imports@,
    {
        self.ffi_imports.as_slice()
    }

    /// This module with every definition rewritten by `transform`: first
    /// each local definition in its body, bottom-up, then the definition
    /// itself, definition by definition.
    pub fn transform_definitions<E, F: Fn(&Definition) -> Result<Definition, E>>(
        &self,
        transform: &F,
    ) -> (result: Result<Self, E>)
        requires
            forall|definition: &Definition| transform.requires((definition,)),
        ensures
            module_definitions_transformed(definition_step(transform), *self, result),
    {
        let ghost element = definition_step(transform);
        let ghost outer = |x: Definition, r: Result<Definition, E>|
            definition_rewritten(element, x, r);
        let rewrite = |expression: &Expression| -> (rewritten: Result<Expression, E>)
            requires
                forall|definition: &Definition| transform.requires((definition,)),
            ensures
                (let_definitions_step(definition_step(transform)))(*expression, rewritten),
            { rewrite_let_definitions(expression, transform) };
        let mut definitions: Vec<Definition> = Vec::new();
        let mut i: usize = 0;
        assert(self.definitions@.take(0) =~= Seq::<Definition>::empty());
        while i < self.definitions.len()
            invariant
                i <= self.definitions@.len(),
                forall|definition: &Definition| transform.requires((definition,)),
                element == definition_step(transform),
                outer == (|x: Definition, r: Result<Definition, E>|
                    definition_rewritten(element, x, r)),
                forall|expression: &Expression| rewrite.requires((expression,)),
                forall|x: Expression, r: Result<Expression, E>|
                    #[trigger] (expression_step(&rewrite))(x, r) ==> (let_definitions_step(
                        element,
                    ))(x, r),
                sequence_transformed(
                    outer,
                    self.definitions@.take(i as int),
                    Ok::<Seq<Definition>, E>(definitions@),
                ),
            decreases self.definitions@.len() - i,
        {
            let definition = &self.definitions[i];
            let x = definition.transform_expressions(&rewrite);
            proof {
                lemma_definition_transformed_weaken(
                    expression_step(&rewrite),
                    let_definitions_step(element),
                    *definition,
                    x,
                );
            }
            let y = match x {
                Err(error) => Err(error),
                Ok(rewritten) => transform(&rewritten),
            };
            assert(witness(x));
            assert(outer(*definition, y));
            proof {
                lemma_sequence_step(outer, self.definitions@, i as int, definitions@, y);
            }
            match y {
                Err(error) => {
                    assert(witness(Err::<Seq<Definition>, E>(error)));
                    return Err(error);
                },
                Ok(definition) => definitions.push(definition),
            }
            i = i + 1;
        }
        assert(self.definitions@.take(i as int) =~= self.definitions@);
        assert(witness(Ok::<Seq<Definition>, E>(definitions@)));
        Ok(
            Self::new(
                self.path.clone(),
                self.export.clone(),
                copy_all(&self.imports),
                copy_all(&self.ffi_imports),
                copy_all(&self.type_definitions),
                definitions,
            ),
        )
    }

    /// This module with the body of each definition transformed bottom-up by
    /// `transform`, in order.
    pub fn transform_expressions<E, F: Fn(&Expression) -> Result<Expression, E>>(
        &self,
        transform: &F,
    ) -> (result: Result<Self, E>)
        requires
            forall|expression: &Expression| transform.requires((expression,)),
        ensures
            module_expressions_transformed(expression_step(transform), *self, result),
    {
        let ghost element = |x: Definition, r: Result<Definition, E>|
            definition_transformed(expression_step(transform), x, r);
        let mut definitions: Vec<Definition> = Vec::new();
        let mut i: usize = 0;
        assert(self.definitions@.take(0) =~= Seq::<Definition>::empty());
        while i < self.definitions.len()
            invariant
                i <= self.definitions@.len(),
                forall|expression: &Expression| transform.requires((expression,)),
                element == (|x: Definition, r: Result<Definition, E>|
                    definition_transformed(expression_step(transform), x, r)),
                sequence_transformed(
                    element,
                    self.definitions@.take(i as int),
                    Ok::<Seq<Definition>, E>(definitions@),
                ),
            decreases self.definitions@.len() - i,
        {
            let d = self.definitions[i].transform_expressions(transform);
            proof {
                lemma_sequence_step(element, self.definitions@, i as int, definitions@, d);
            }
            match d {
                Err(error) => {
                    assert(witness(Err::<Seq<Definition>, E>(error)));
                    return Err(error);
                },
                Ok(definition) => definitions.push(definition),
            }
            i = i + 1;
        }
        assert(self.definitions@.take(i as int) =~= self.definitions@);
        assert(witness(Ok::<Seq<Definition>, E>(definitions@)));
        Ok(
            Self::new(
                self.path.clone(),
                self.export.clone(),
                copy_all(&self.imports),
                copy_all(&self.ffi_imports),
                copy_all(&self.type_definitions),
                definitions,
            ),
        )
    }

    /// This module with the types of its type definitions and then in its
    /// definitions transformed bottom-up by `transform`.
    pub fn transform_types<E, F: Fn(&Type) -> Result<Type, E>>(&self, transform: &F) -> (result:
        Result<Self, E>)
        requires
            forall|type_: &Type| transform.requires((type_,)),
        ensures
            module_types_transformed(type_step(transform), *self, result),
    {
        let ghost step = type_step(transform);
        let ghost type_element = |x: TypeDefinition, r: Result<TypeDefinition, E>|
            type_definition_transformed(step, x, r);
        let mut type_definitions: Vec<TypeDefinition> = Vec::new();
        let mut j: usize = 0;
        assert(self.type_definitions@.take(0) =~= Seq::<TypeDefinition>::empty());
        while j < self.type_definitions.len()
            invariant
                j <= self.type_definitions@.len(),
                forall|type_: &Type| transform.requires((type_,)),
                step == type_step(transform),
                type_element == (|x: TypeDefinition, r: Result<TypeDefinition, E>|
                    type_definition_transformed(step, x, r)),
                sequence_transformed(
                    type_element,
                    self.type_definitions@.take(j as int),
                    Ok::<Seq<TypeDefinition>, E>(type_definitions@),
                ),
            decreases self.type_definitions@.len() - j,
        {
            let x = self.type_definitions[j].transform_types(transform);
            proof {
                lemma_sequence_step(type_element, self.type_definitions@, j as int,
                    type_definitions@, x);
            }
            match x {
                Err(error) => {
                    assert(witness(Err::<Seq<TypeDefinition>, E>(error)));
                    return Err(error);
                },
                Ok(definition) => type_definitions.push(definition),
            }
            j = j + 1;
        }
        assert(self.type_definitions@.take(j as int) =~= self.type_definitions@);
        assert(witness(Ok::<Seq<TypeDefinition>, E>(type_definitions@)));
        let ghost definition_element = |x: Definition, r: Result<Definition, E>|
            definition_types_transformed(step, x, r);
        let mut definitions: Vec<Definition> = Vec::new();
        let mut k: usize = 0;
        assert(self.definitions@.take(0) =~= Seq::<Definition>::empty());
        while k < self.definitions.len()
            invariant
                k <= self.definitions@.len(),
                forall|type_: &Type| transform.requires((type_,)),
                step == type_step(transform),
                type_element == (|x: TypeDefinition, r: Result<TypeDefinition, E>|
                    type_definition_transformed(step, x, r)),
                sequence_transformed(
                    type_element,
                    self.type_definitions@,
                    Ok::<Seq<TypeDefinition>, E>(type_definitions@),
                ),
                definition_element == (|x: Definition, r: Result<Definition, E>|
                    definition_types_transformed(step, x, r)),
                sequence_transformed(
                    definition_element,
                    self.definitions@.take(k as int),
                    Ok::<Seq<Definition>, E>(definitions@),
                ),
            decreases self.definitions@.len() - k,
        {
            let x = self.definitions[k].transform_types(transform);
            proof {
                lemma_sequence_step(definition_element, self.definitions@, k as int, definitions@,
                    x);
            }
            match x {
                Err(error) => {
                    assert(witness(Ok::<Seq<TypeDefinition>, E>(type_definitions@)));
                    assert(witness(Err::<Seq<Definition>, E>(error)));
                    return Err(error);
                },
                Ok(definition) => definitions.push(definition),
            }
            k = k + 1;
        }
        assert(self.definitions@.take(k as int) =~= self.definitions@);
        assert(witness(Ok::<Seq<Definition>, E>(definitions@)));
        Ok(
            Self::new(
                self.path.clone(),
                self.export.clone(),
                copy_all(&self.imports),
                copy_all(&self.ffi_imports),
                type_definitions,
                definitions,
            ),
        )
    }
}

} // verus!

verus! {

/// Transforming the expressions of a module with a step that keeps every
/// expression, up to its view, keeps the module: it never fails, and every
/// part of the result has the view of the same part of the module.
pub proof fn lemma_module_expressions_kept<E>(
    step: spec_fn(Expression, Result<Expression, E>) -> bool,
    module: Module,
    result: Result<Module, E>,
)
    requires
        forall|x: Expression, r: Result<Expression, E>|
            #[trigger] step(x, r) ==> r is Ok && r->Ok_0@ == x@,
        module_expressions_transformed(step, module, result),
    ensures
        result is Ok,
        keeps_header(module, result->Ok_0),
        views(result->Ok_0.type_definitions@) == views(module.type_definitions@),
        views(result->Ok_0.definitions@) == views(module.definitions@),
{
    let element = |x: Definition, r: Result<Definition, E>| definition_transformed(step, x, r);
    let d = choose|d: Result<Seq<Definition>, E>|
        #[trigger] witness(d) && sequence_transformed(element, module.definitions@, d) && (d is Err
            ==> result == Err::<Module, E>(d->Err_0)) && (d is Ok ==> result is Ok && {
            let m = result->Ok_0;
            &&& keeps_header(module, m)
            &&& views(m.type_definitions@) == views(module.type_definitions@)
            &&& m.definitions@ == d->Ok_0
        });
    assert forall|x: Definition, r: Result<Definition, E>| #[trigger] element(x, r) implies r is Ok
        && r->Ok_0@ == x@ by {
        lemma_definition_transformed_keeps(step, x, r);
    }
    lemma_sequence_transformed_keeps(element, module.definitions@, d);
}

} // verus!

verus! {

/// Transforming the types of a module with a step that keeps every type,
/// up to its view, keeps the module: it never fails, and every part of the
/// result has the view of the same part of the module.
pub proof fn lemma_module_types_kept<E>(
    step: spec_fn(Type, Result<Type, E>) -> bool,
    module: Module,
    result: Result<Module, E>,
)
    requires
        forall|x: Type, r: Result<Type, E>| #[trigger] step(x, r) ==> r is Ok && r->Ok_0@ == x@,
        module_types_transformed(step, module, result),
    ensures
        result is Ok,
        keeps_header(module, result->Ok_0),
        views(result->Ok_0.type_definitions@) == views(module.type_definitions@),
        views(result->Ok_0.definitions@) == views(module.definitions@),
{
    let types = |x: TypeDefinition, r: Result<TypeDefinition, E>|
        type_definition_transformed(step, x, r);
    let definitions = |x: Definition, r: Result<Definition, E>|
        definition_types_transformed(step, x, r);
    assert forall|x: TypeDefinition, r: Result<TypeDefinition, E>| #[trigger] types(x, r) implies r
        is Ok && r->Ok_0@ == x@ by {
        lemma_type_definition_transformed_keeps(step, x, r);
    }
    assert forall|x: Definition, r: Result<Definition, E>| #[trigger] definitions(x, r) implies r
        is Ok && r->Ok_0@ == x@ by {
        lemma_definition_types_transformed_keeps(step, x, r);
    }
    let t = choose|t: Result<Seq<TypeDefinition>, E>|
        #[trigger] witness(t) && sequence_transformed(types, module.type_definitions@, t) && (t is
            Err
            ==> result == Err::<Module, E>(t->Err_0)) && (t is Ok ==> exists|
            d: Result<Seq<Definition>, E>,
        |
            #[trigger] witness(d) && sequence_transformed(definitions, module.definitions@, d) && (
            d is Err ==> result == Err::<Module, E>(d->Err_0)) && (d is Ok ==> result is Ok && {
                let m = result->Ok_0;
                &&& keeps_header(module, m)
                &&& m.type_definitions@ == t->Ok_0
                &&& m.definitions@ == d->Ok_0
            }));
    lemma_sequence_transformed_keeps(types, module.type_definitions@, t);
    let d = choose|d: Result<Seq<Definition>, E>|
        #[trigger] witness(d) && sequence_transformed(definitions, module.definitions@, d) && (d is
            Err
            ==> result == Err::<Module, E>(d->Err_0)) && (d is Ok ==> result is Ok && {
            let m = result->Ok_0;
            &&& keeps_header(module, m)
            &&& m.type_definitions@ == t->Ok_0
            &&& m.definitions@ == d->Ok_0
        });
    lemma_sequence_transformed_keeps(definitions, module.definitions@, d);
}

} // verus!

verus! {

proof fn lemma_definition_models_views(definitions: Seq<Definition>)
    ensures
        definition_models(definitions) == views(definitions),
    decreases definitions.len(),
{
    if definitions.len() == 0 {
        assert(views(definitions) =~= Seq::<crate::syntax::DefinitionModel>::empty());
    } else {
        lemma_definition_models_views(definitions.drop_last());
        assert(views(definitions) =~= views(definitions.drop_last()).push(definitions.last()@));
    }
}

/// Rewriting the definitions of a module with a transformation that keeps
/// every definition, up to its view, keeps the module: it never fails, and
/// every part of the result has the view of the same part of the module.
pub proof fn lemma_module_definitions_kept<E>(
    element: spec_fn(Definition, Result<Definition, E>) -> bool,
    module: Module,
    result: Result<Module, E>,
)
    requires
        forall|x: Definition, r: Result<Definition, E>|
            #[trigger] element(x, r) ==> r is Ok && r->Ok_0@ == x@,
        module_definitions_transformed(element, module, result),
    ensures
        result is Ok,
        keeps_header(module, result->Ok_0),
        views(result->Ok_0.type_definitions@) == views(module.type_definitions@),
        views(result->Ok_0.definitions@) == views(module.definitions@),
{
    let step = let_definitions_step(element);
    assert forall|x: Expression, r: Result<Expression, E>| #[trigger] step(x, r) implies r is Ok
        && r->Ok_0@ == x@ by {
        match x {
            Expression::Let(l) => {
                let d = choose|d: Result<Seq<Definition>, E>|
                    #[trigger] witness(d) && sequence_transformed(element, l.definitions@, d) && (d
                        is Err
                        ==> r == Err::<Expression, E>(d->Err_0)) && (d is Ok ==> r is Ok
                        && r->Ok_0@ == ExpressionModel::Let(
                        definition_models(d->Ok_0),
                        Box::new(l.expression@),
                        l.source_information,
                    ));
                lemma_sequence_transformed_keeps(element, l.definitions@, d);
                lemma_definition_models_views(d->Ok_0);
                lemma_definition_models_views(l.definitions@);
            },
            _ => {},
        }
    }
    let rewritten = |x: Definition, r: Result<Definition, E>| definition_rewritten(element, x, r);
    assert forall|x: Definition, r: Result<Definition, E>| #[trigger] rewritten(x, r) implies r is
        Ok
        && r->Ok_0@ == x@ by {
        let y = choose|y: Result<Definition, E>|
            #[trigger] witness(y) && definition_transformed(let_definitions_step(element), x, y)
                && (y is Err ==> r == Err::<Definition, E>(y->Err_0)) && (y is Ok ==> element(
                y->Ok_0,
                r,
            ));
        lemma_definition_transformed_keeps(step, x, y);
    }
    let d = choose|d: Result<Seq<Definition>, E>|
        #[trigger] witness(d) && sequence_transformed(rewritten, module.definitions@, d) && (d is
            Err
            ==> result == Err::<Module, E>(d->Err_0)) && (d is Ok ==> result is Ok && {
            let m = result->Ok_0;
            &&& keeps_header(module, m)
            &&& views(m.type_definitions@) == views(module.type_definitions@)
            &&& m.definitions@ == d->Ok_0
        });
    lemma_sequence_transformed_keeps(rewritten, module.definitions@, d);
}

} // verus!
