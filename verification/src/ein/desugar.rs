//! Desugaring of function-typed arguments: an argument of a function type
//! that is not already a variable of exactly that type is bound to a fresh
//! variable of that type by a `let`, so that later passes see every
//! function-typed argument as a variable of the expected type.
use vstd::prelude::*;
use std::rc::Rc;
use crate::ein::name_generator::{decimal, lemma_generated_names_distinct, NameGenerator};
use crate::ein::types::{
    element_models_find, expression_type, CompileError, CompileErrorModel,
    ExpressionTypeExtractor, ReferenceTypeResolver, TypeEqualityChecker,
};
use crate::lang::environment::TypeEnvironment;
use crate::syntax::{
    copy_names, definition_models, element_models, field_models, Application, Definition,
    DefinitionModel, Expression, ExpressionModel, FunctionDefinition, Let, RecordConstruction,
    RecordElement, RecordField, SourceInformation, Type, TypeModel, ValueDefinition, Variable,
};

verus! {

/// A `let` that binds `expression` to `name` at type `to` and evaluates to
/// that variable.
pub open spec fn bound_argument(
    name: Seq<char>,
    expression: Expression,
    to: TypeModel,
    source_information: SourceInformation,
) -> ExpressionModel {
    ExpressionModel::Let(
        seq![DefinitionModel::Value(name, expression@, to, source_information)],
        Box::new(ExpressionModel::Variable(name, source_information)),
        source_information,
    )
}

/// How many fresh names desugaring `expression` may take.
pub open spec fn names_needed(expression: Expression) -> nat {
    match expression {
        Expression::Application(_) => 1,
        Expression::RecordConstruction(r) => r.elements@.len(),
        _ => 0,
    }
}

/// Binds function-typed arguments to variables of their expected types.
#[derive(Debug)]
pub struct FunctionTypeArgumentDesugarer {
    name_generator: NameGenerator,
    reference_type_resolver: Rc<ReferenceTypeResolver>,
    type_equality_checker: Rc<TypeEqualityChecker>,
    expression_type_extractor: Rc<ExpressionTypeExtractor>,
}

impl FunctionTypeArgumentDesugarer {
    pub closed spec fn resolver(&self) -> ReferenceTypeResolver {
        *self.reference_type_resolver
    }

    pub closed spec fn checker(&self) -> TypeEqualityChecker {
        *self.type_equality_checker
    }

    pub closed spec fn extractor(&self) -> ExpressionTypeExtractor {
        *self.expression_type_extractor
    }

    /// The prefix of the variables that this desugarer introduces.
    pub closed spec fn prefix(&self) -> Seq<char> {
        self.name_generator.prefix()
    }

    /// How many variables this desugarer has introduced.
    pub closed spec fn count(&self) -> nat {
        self.name_generator.count()
    }

    /// The count of introduced variables fits in a `u64`.
    pub proof fn lemma_count_bound(&self)
        ensures
            self.count() <= u64::MAX,
    {
        self.name_generator.lemma_count_bound();
    }

    /// Whether this desugarer is `earlier` after any number of calls: the
    /// same collaborators and prefix, and a count no lower.
    pub open spec fn descends_from(self, earlier: Self) -> bool {
        &&& earlier.same_collaborators(self)
        &&& earlier.count() <= self.count()
    }

    /// A desugarer after calls made after other calls descends from the
    /// first.
    pub proof fn lemma_descends_transitive(first: Self, second: Self, third: Self)
        requires
            second.descends_from(first),
            third.descends_from(second),
        ensures
            third.descends_from(first),
    {
    }

    /// The names that a desugarer binds. A call that binds a variable, here
    /// or in a record construction, names it by the prefix and the count
    /// before that binding, in decimal, and raises the count, and every call
    /// leaves a desugarer that descends from the one it was made on. So every
    /// name bound by a desugarer made by [`Self::new`], in any later state,
    /// is `fta_function_` followed by a count, and bindings made at
    /// different counts, in one call or in different calls, have different
    /// names.
    pub proof fn lemma_bound_names(origin: Self, first: Self, second: Self)
        requires
            origin.prefix() == "fta_function_"@,
            first.descends_from(origin),
            second.descends_from(origin),
        ensures
            first.prefix() + decimal(first.count()) == "fta_function_"@ + decimal(first.count()),
            first.count() != second.count() ==> first.prefix() + decimal(first.count())
                != second.prefix() + decimal(second.count()),
    {
        if first.count() != second.count() {
            lemma_generated_names_distinct(first.prefix(), first.count(), second.count());
        }
    }

    /// Whether `other` is this desugarer with the same collaborators.
    pub open spec fn same_collaborators(self, other: Self) -> bool {
        &&& other.resolver() == self.resolver()
        &&& other.checker() == self.checker()
        &&& other.extractor() == self.extractor()
        &&& other.prefix() == self.prefix()
    }

    /// What desugaring `expression` as an argument of type `to_type` decides:
    /// an error, `None` to keep it, or the type to bind it at. Both types
    /// are resolved; the argument is bound when the expected type is a
    /// function type and the argument is not a variable or its type is not
    /// the expected one.
    pub open spec fn argument_decision(
        &self,
        variables: Map<Seq<char>, TypeModel>,
        expression: Expression,
        to_type: TypeModel,
    ) -> Result<Option<TypeModel>, CompileErrorModel> {
        match expression_type(self.extractor().resolver().definitions(), variables, expression) {
            Err(error) => Err(error),
            Ok(extracted) => match self.resolver().resolved(extracted) {
                Err(error) => Err(error),
                Ok(from) => match self.resolver().resolved(to_type) {
                    Err(error) => Err(error),
                    Ok(to) => if to is Function {
                        match (self.checker().resolver().resolved(from),
                            self.checker().resolver().resolved(to)) {
                            (Err(error), _) => Err(error),
                            (Ok(_), Err(error)) => Err(error),
                            (Ok(x), Ok(y)) => if x != y || !(expression is Variable) {
                                Ok(Some(to))
                            } else {
                                Ok(None)
                            },
                        }
                    } else {
                        Ok(None)
                    },
                },
            },
        }
    }

    /// The desugared elements of a record construction with the number of
    /// variables introduced after them, from a count of `count`: each
    /// element's expression is desugared as an argument of the type of the
    /// record type's element of the same name, in order.
    pub open spec fn fields_desugared(
        &self,
        variables: Map<Seq<char>, TypeModel>,
        fields: Seq<RecordField>,
        elements: Seq<(Seq<char>, TypeModel)>,
        source_information: SourceInformation,
        count: nat,
    ) -> Result<(Seq<(Seq<char>, ExpressionModel)>, nat), CompileErrorModel>
        decreases fields.len(),
    {
        if fields.len() == 0 {
            Ok((seq![], count))
        } else {
            match self.fields_desugared(
                variables,
                fields.drop_last(),
                elements,
                source_information,
                count,
            ) {
                Err(error) => Err(error),
                Ok((init, after)) => {
                    let last = fields.last();
                    match self.argument_decision(
                        variables,
                        last.expression,
                        element_models_find(elements, last.name@).unwrap(),
                    ) {
                        Err(error) => Err(error),
                        Ok(None) => Ok((init.push((last.name@, last.expression@)), after)),
                        Ok(Some(to)) => Ok(
                            (
                                init.push(
                                    (
                                        last.name@,
                                        bound_argument(
                                            self.prefix() + decimal(after),
                                            last.expression,
                                            to,
                                            source_information,
                                        ),
                                    ),
                                ),
                                after + 1,
                            ),
                        ),
                    }
                },
            }
        }
    }

    /// What desugaring `expression` gives, from a count of `count`: the
    /// argument of an application is desugared as an argument of the
    /// argument type of the function's type; the elements of a record
    /// construction as [`Self::fields_desugared`] says, against the
    /// elements of the resolved record type; any other expression is kept.
    /// With the result, the count after it.
    pub open spec fn expression_desugared(
        &self,
        variables: Map<Seq<char>, TypeModel>,
        expression: Expression,
        count: nat,
    ) -> Result<(ExpressionModel, nat), CompileErrorModel> {
        match expression {
            Expression::Application(a) => match expression_type(
                self.extractor().resolver().definitions(),
                variables,
                *a.function,
            ) {
                Err(error) => Err(error),
                Ok(function_type) => match self.argument_decision(
                    variables,
                    *a.argument,
                    *function_type->Function_0,
                ) {
                    Err(error) => Err(error),
                    Ok(None) => Ok((expression@, count)),
                    Ok(Some(to)) => Ok(
                        (
                            ExpressionModel::Application(
                                Box::new(a.function@),
                                Box::new(
                                    bound_argument(
                                        self.prefix() + decimal(count),
                                        *a.argument,
                                        to,
                                        a.source_information,
                                    ),
                                ),
                                a.source_information,
                            ),
                            count + 1,
                        ),
                    ),
                },
            },
            Expression::RecordConstruction(r) => match self.resolver().resolved(r.type_@) {
                Err(error) => Err(error),
                Ok(record_type) => match self.fields_desugared(
                    variables,
                    r.elements@,
                    record_type->Record_1,
                    r.source_information,
                    count,
                ) {
                    Err(error) => Err(error),
                    Ok((fields, after)) => Ok(
                        (
                            ExpressionModel::RecordConstruction(
                                r.type_@,
                                fields,
                                r.source_information,
                            ),
                            after,
                        ),
                    ),
                },
            },
            _ => Ok((expression@, count)),
        }
    }

    /// Whether desugaring `expression` finds what it looks up: the type of
    /// an applied function, once extracted, is a function type, and the
    /// type of a record construction, once resolved, is a record type with
    /// an element of each name that the construction gives.
    pub open spec fn desugarable(
        &self,
        variables: Map<Seq<char>, TypeModel>,
        expression: Expression,
    ) -> bool {
        match expression {
            Expression::Application(a) => match expression_type(
                self.extractor().resolver().definitions(),
                variables,
                *a.function,
            ) {
                Ok(function_type) => function_type is Function,
                Err(_) => true,
            },
            Expression::RecordConstruction(r) => match self.resolver().resolved(r.type_@) {
                Ok(record_type) => record_type is Record && forall|k: int|
                    0 <= k < r.elements@.len() ==> #[trigger] element_models_find(
                        record_type->Record_1,
                        r.elements@[k].name@,
                    ) is Some,
                Err(_) => true,
            },
            _ => true,
        }
    }

    /// A failure on the first `k` fields is the failure on all of them.
    proof fn lemma_fields_error(
        &self,
        variables: Map<Seq<char>, TypeModel>,
        fields: Seq<RecordField>,
        elements: Seq<(Seq<char>, TypeModel)>,
        source_information: SourceInformation,
        count: nat,
        k: int,
    )
        requires
            0 <= k <= fields.len(),
            self.fields_desugared(variables, fields.take(k), elements, source_information, count)
                is Err,
        ensures
            self.fields_desugared(variables, fields, elements, source_information, count)
                == self.fields_desugared(
                variables,
                fields.take(k),
                elements,
                source_information,
                count,
            ),
        decreases fields.len(),
    {
        if k == fields.len() {
            assert(fields.take(k) =~= fields);
        } else {
            assert(fields.drop_last().take(k) =~= fields.take(k));
            self.lemma_fields_error(
                variables,
                fields.drop_last(),
                elements,
                source_information,
                count,
                k,
            );
        }
    }

    pub fn new(
        reference_type_resolver: Rc<ReferenceTypeResolver>,
        type_equality_checker: Rc<TypeEqualityChecker>,
        expression_type_extractor: Rc<ExpressionTypeExtractor>,
    ) -> (desugarer: Self)
        ensures
            desugarer.resolver() == *reference_type_resolver,
            desugarer.checker() == *type_equality_checker,
            desugarer.extractor() == *expression_type_extractor,
            desugarer.prefix() == "fta_function_"@,
            desugarer.count() == 0,
    {
        let desugarer = FunctionTypeArgumentDesugarer {
            name_generator: NameGenerator::new("fta_function_"),
            reference_type_resolver,
            type_equality_checker,
            expression_type_extractor,
        };
        desugarer
    }

    /// `expression`, an argument expected to be of type `to_type`, bound to a
    /// fresh variable of the expected type where
    /// [`Self::argument_decision`] says so, and kept otherwise.
    pub fn desugar_function_type_argument(
        &mut self,
        expression: &Expression,
        to_type: &Type,
        source_information: &SourceInformation,
        variables: &TypeEnvironment,
    ) -> (result: Result<Expression, CompileError>)
        requires
            old(self).count() < u64::MAX,
        ensures
            old(self).same_collaborators(*final(self)),
            final(self).descends_from(*old(self)),
            match old(self).argument_decision(variables@, *expression, to_type@) {
                Err(error) => result is Err && result->Err_0@ == error
                    && final(self).count() == old(self).count(),
                Ok(None) => result is Ok && result->Ok_0@ == expression@ && final(self).count()
                    == old(self).count(),
                Ok(Some(to)) => result is Ok && result->Ok_0@ == bound_argument(
                    old(self).prefix() + decimal(old(self).count()),
                    *expression,
                    to,
                    *source_information,
                ) && final(self).count() == old(self).count() + 1,
            },
    {
        let extracted = match self.expression_type_extractor.extract(expression, variables) {
            Ok(type_) => type_,
            Err(error) => return Err(error),
        };
        let from = match self.reference_type_resolver.resolve(&extracted) {
            Ok(type_) => type_,
            Err(error) => return Err(error),
        };
        let to = match self.reference_type_resolver.resolve(to_type) {
            Ok(type_) => type_,
            Err(error) => return Err(error),
        };
        if to.is_function() {
            let equal = match self.type_equality_checker.equal(&from, &to) {
                Ok(equal) => equal,
                Err(error) => return Err(error),
            };
            if !equal || !expression.is_variable() {
                let name = self.name_generator.generate();
                let ghost to_view = to@;
                let definitions = vec![
                    Definition::ValueDefinition(
                        ValueDefinition {
                            name: name.clone(),
                            body: expression.clone(),
                            type_: to,
                            source_information: source_information.clone(),
                        },
                    ),
                ];
                assert(definition_models(definitions@) =~= seq![
                    DefinitionModel::Value(name@, expression@, to_view, *source_information),
                ]) by {
                    assert(definitions@.drop_last() =~= Seq::<Definition>::empty());
                    assert(definition_models(Seq::<Definition>::empty()) =~=
                        Seq::<DefinitionModel>::empty());
                    assert(definitions@.last()@ == DefinitionModel::Value(name@, expression@,
                        to_view, *source_information));
                }
                let ghost name_view = name@;
                let variable = Expression::Variable(
                    Variable { name, source_information: source_information.clone() },
                );
                assert(variable@ == ExpressionModel::Variable(name_view, *source_information));
                let result = Expression::Let(
                    Let {
                        definitions,
                        expression: Box::new(variable),
                        source_information: source_information.clone(),
                    },
                );
                return Ok(result);
            }
        }
        Ok(expression.clone())
    }
    /// `expression` with the function-typed arguments of an application or
    /// of a record construction desugared; any other expression is kept.
    pub fn desugar_expression(&mut self, expression: &Expression, variables: &TypeEnvironment) ->
        (result:
        Result<Expression, CompileError>)
        requires
            old(self).count() + names_needed(*expression) <= u64::MAX,
            old(self).desugarable(variables@, *expression),
        ensures
            old(self).same_collaborators(*final(self)),
            old(self).count() <= final(self).count(),
            final(self).descends_from(*old(self)),
            match old(self).expression_desugared(variables@, *expression, old(self).count()) {
                Err(error) => result is Err && result->Err_0@ == error,
                Ok((model, after)) => result is Ok && result->Ok_0@ == model && final(self).count()
                    == after,
            },
    {
        match expression {
            Expression::Application(a) => {
                let function_type = match self.expression_type_extractor.extract(
                    &a.function,
                    variables,
                ) {
                    Ok(type_) => type_,
                    Err(error) => return Err(error),
                };
                let argument_type = match &function_type {
                    Type::Function(argument, _) => argument,
                    _ => {
                        assert(false);
                        return Err(CompileError::FunctionExpected);
                    },
                };
                let argument = match self.desugar_function_type_argument(
                    &a.argument,
                    argument_type,
                    &a.source_information,
                    variables,
                ) {
                    Ok(argument) => argument,
                    Err(error) => return Err(error),
                };
                Ok(
                    Expression::Application(
                        Application {
                            function: Box::new((*a.function).clone()),
                            argument: Box::new(argument),
                            source_information: a.source_information.clone(),
                        },
                    ),
                )
            },
            Expression::RecordConstruction(r) => {
                let type_ = match self.reference_type_resolver.resolve_reference(&r.type_) {
                    Ok(type_) => type_,
                    Err(error) => return Err(error),
                };
                let record_type = match &type_ {
                    Type::Record(record) => record,
                    _ => {
                        assert(false);
                        return Err(CompileError::FunctionExpected);
                    },
                };
                let ghost elements = element_models(record_type.elements@);
                assert(old(self).resolver().resolved(r.type_@) == Ok::<TypeModel,
                    CompileErrorModel>(
                    TypeModel::Record(record_type.name@, elements),
                ));
                let ghost initial = *old(self);
                let mut fields: Vec<RecordField> = Vec::new();
                let mut i: usize = 0;
                assert(r.elements@.take(0) =~= Seq::<RecordField>::empty());
                assert(field_models(fields@) =~= Seq::<(Seq<char>, ExpressionModel)>::empty());
                while i < r.elements.len()
                    invariant
                        i <= r.elements@.len(),
                        initial == *old(self),
                        *expression == Expression::RecordConstruction(*r),
                        elements == element_models(record_type.elements@),
                        initial.resolver().resolved(r.type_@) == Ok::<TypeModel, CompileErrorModel>(
                            TypeModel::Record(record_type.name@, elements),
                        ),
                        initial.same_collaborators(*self),
                        initial.fields_desugared(
                            variables@,
                            r.elements@.take(i as int),
                            elements,
                            r.source_information,
                            initial.count(),
                        ) == Ok::<(Seq<(Seq<char>, ExpressionModel)>, nat), CompileErrorModel>(
                            (field_models(fields@), self.count()),
                        ),
                        initial.count() <= self.count() <= initial.count() + i,
                        initial.count() + r.elements@.len() <= u64::MAX,
                        forall|k: int|
                            0 <= k < r.elements@.len() ==> #[trigger] element_models_find(
                                elements,
                                r.elements@[k].name@,
                            ) is Some,
                    decreases r.elements@.len() - i,
                {
                    let field = &r.elements[i];
                    assert(element_models_find(elements, r.elements@[i as int].name@) is Some);
                    let to = match record_type.element_type(&field.name) {
                        Some(type_) => type_,
                        None => {
                            assert(false);
                            return Err(CompileError::FunctionExpected);
                        },
                    };
                    let ghost before = fields@;
                    proof {
                        assert(r.elements@.take(i + 1).drop_last() =~= r.elements@.take(i as int));
                        assert(r.elements@.take(i + 1).last() == *field);
                    }
                    let desugared = match self.desugar_function_type_argument(
                        &field.expression,
                        to,
                        &r.source_information,
                        variables,
                    ) {
                        Ok(desugared) => desugared,
                        Err(error) => {
                            proof {
                                assert(to@ == element_models_find(elements, field.name@).unwrap());
                                assert(initial.fields_desugared(
                                    variables@,
                                    r.elements@.take(i + 1),
                                    elements,
                                    r.source_information,
                                    initial.count(),
                                ) == Err::<(Seq<(Seq<char>, ExpressionModel)>, nat),
                                    CompileErrorModel>(
                                    error@,
                                ));
                                initial.lemma_fields_error(
                                    variables@,
                                    r.elements@,
                                    elements,
                                    r.source_information,
                                    initial.count(),
                                    i + 1,
                                );
                                assert(initial.expression_desugared(
                                    variables@,
                                    *expression,
                                    initial.count(),
                                ) == Err::<(ExpressionModel, nat), CompileErrorModel>(error@));
                            }
                            return Err(error);
                        },
                    };
                    fields.push(RecordField { name: field.name.clone(), expression: desugared });
                    assert(fields@.drop_last() =~= before);
                    i = i + 1;
                }
                assert(r.elements@.take(i as int) =~= r.elements@);
                Ok(
                    Expression::RecordConstruction(
                        RecordConstruction {
                            type_: r.type_.clone(),
                            elements: fields,
                            source_information: r.source_information.clone(),
                        },
                    ),
                )
            },
            _ => Ok(expression.clone()),
        }
    }

    /// A function definition, desugared on its own: it is kept as it is,
    /// since function-typed arguments are bound where they are applied.
    pub fn desugar_function_definition(
        &mut self,
        function_definition: &FunctionDefinition,
        variables: &TypeEnvironment,
    ) -> (result: Result<FunctionDefinition, CompileError>)
        ensures
            *final(self) == *old(self),
            result is Ok,
            Definition::FunctionDefinition(result->Ok_0)@ == Definition::FunctionDefinition(
                *function_definition,
            )@,
    {
        Ok(
            FunctionDefinition {
                name: function_definition.name.clone(),
                arguments: copy_names(&function_definition.arguments),
                body: function_definition.body.clone(),
                type_: function_definition.type_.clone(),
                source_information: function_definition.source_information.clone(),
            },
        )
    }

    /// A value definition, desugared on its own: it is kept as it is.
    pub fn desugar_value_definition(
        &mut self,
        value_definition: &ValueDefinition,
        variables: &TypeEnvironment,
    ) -> (result: Result<ValueDefinition, CompileError>)
        ensures
            *final(self) == *old(self),
            result is Ok,
            Definition::ValueDefinition(result->Ok_0)@ == Definition::ValueDefinition(
                *value_definition,
            )@,
    {
        Ok(
            ValueDefinition {
                name: value_definition.name.clone(),
                body: value_definition.body.clone(),
                type_: value_definition.type_.clone(),
                source_information: value_definition.source_information.clone(),
            },
        )
    }
}

} // verus!

verus! {

/// Only arguments expected at a function type are bound, always at the
/// resolved expected type: an argument whose expected type resolves to a
/// type that is not a function type is kept, unless finding the types
/// fails.
pub proof fn lemma_only_function_arguments_bound(
    desugarer: FunctionTypeArgumentDesugarer,
    variables: Map<Seq<char>, TypeModel>,
    expression: Expression,
    to_type: TypeModel,
)
    ensures
        desugarer.argument_decision(variables, expression, to_type) matches Ok(Some(bound)) ==> bound
            is Function && desugarer.resolver().resolved(to_type) == Ok::<
            TypeModel,
            CompileErrorModel,
        >(bound),
        desugarer.resolver().resolved(to_type) matches Ok(resolved) && !(resolved is Function)
            ==> desugarer.argument_decision(variables, expression, to_type) is Err
            || desugarer.argument_decision(variables, expression, to_type) == Ok::<
            Option<TypeModel>,
            CompileErrorModel,
        >(None),
{
}

} // verus!

