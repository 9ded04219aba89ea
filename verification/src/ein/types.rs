//! Resolution, comparison and extraction of types in the Ein language.
use vstd::prelude::*;
use crate::items::TypeDefinition;
use crate::lang::environment::{
    entries_map, lemma_entries_map_absent, lemma_entries_map_last, TypeEnvironment,
};
use crate::syntax::{
    element_models, type_model, Expression, ExpressionModel, RecordElement, RecordType, Type,
    TypeModel,
};

verus! {

/// Why a desugaring step failed.
#[derive(Debug)]
pub enum CompileError {
    /// No type definition has this name.
    TypeNotFound(String),
    /// Following type references from this name never reaches a type.
    TypeReferenceCycle(String),
    /// No variable in scope has this name.
    VariableNotFound(String),
    /// An applied expression is not of a function type.
    FunctionExpected,
}

/// The meaning of a compile error.
pub enum CompileErrorModel {
    TypeNotFound(Seq<char>),
    TypeReferenceCycle(Seq<char>),
    VariableNotFound(Seq<char>),
    FunctionExpected,
}

impl View for CompileError {
    type V = CompileErrorModel;

    open spec fn view(&self) -> CompileErrorModel {
        match self {
            CompileError::TypeNotFound(name) => CompileErrorModel::TypeNotFound(name@),
            CompileError::TypeReferenceCycle(name) => CompileErrorModel::TypeReferenceCycle(name@),
            CompileError::VariableNotFound(name) => CompileErrorModel::VariableNotFound(name@),
            CompileError::FunctionExpected => CompileErrorModel::FunctionExpected,
        }
    }
}

/// A result viewed: the view of its value or of its error.
pub open spec fn type_result(result: Result<Type, CompileError>) -> Result<
    TypeModel,
    CompileErrorModel,
> {
    match result {
        Ok(type_) => Ok(type_@),
        Err(error) => Err(error@),
    }
}

/// The type that the first of `definitions` named `name` defines.
pub open spec fn find_type(definitions: Seq<(Seq<char>, TypeModel)>, name: Seq<char>) -> Option<
    TypeModel,
>
    decreases definitions.len(),
{
    if definitions.len() == 0 {
        None
    } else if definitions[0].0 == name {
        Some(definitions[0].1)
    } else {
        find_type(definitions.drop_first(), name)
    }
}

/// `type_` with references followed through `definitions`, at most `fuel`
/// times, until it is not a reference.
pub open spec fn resolve_type(
    definitions: Seq<(Seq<char>, TypeModel)>,
    type_: TypeModel,
    fuel: nat,
) -> Result<TypeModel, CompileErrorModel>
    decreases fuel,
{
    match type_ {
        TypeModel::Reference(name) => match find_type(definitions, name) {
            None => Err(CompileErrorModel::TypeNotFound(name)),
            Some(defined) => if fuel == 0 {
                Err(CompileErrorModel::TypeReferenceCycle(name))
            } else {
                resolve_type(definitions, defined, (fuel - 1) as nat)
            },
        },
        _ => Ok(type_),
    }
}

/// The views of type definitions.
pub open spec fn definitions_model(definitions: Seq<TypeDefinition>) -> Seq<(Seq<char>, TypeModel)>
    {
    definitions.map_values(|definition: TypeDefinition| definition@)
}

/// Resolves type references through a module's type definitions.
#[derive(Debug)]
pub struct ReferenceTypeResolver {
    type_definitions: Vec<TypeDefinition>,
}

impl ReferenceTypeResolver {
    /// The type definitions that this resolver follows.
    pub closed spec fn definitions(&self) -> Seq<(Seq<char>, TypeModel)> {
        definitions_model(self.type_definitions@)
    }

    /// `type_` resolved: a reference is followed, one definition after
    /// another, as many times as there are definitions at most.
    pub open spec fn resolved(&self, type_: TypeModel) -> Result<TypeModel, CompileErrorModel> {
        resolve_type(self.definitions(), type_, self.definitions().len())
    }

    pub fn new(type_definitions: Vec<TypeDefinition>) -> (resolver: Self)
        ensures
            resolver.definitions() == definitions_model(type_definitions@),
    {
        ReferenceTypeResolver { type_definitions }
    }

    fn find(&self, name: &String) -> (found: Option<&Type>)
        ensures
            match found {
                Some(t) => find_type(self.definitions(), name@) == Some(t@),
                None => find_type(self.definitions(), name@) is None,
            },
    {
        let mut i: usize = 0;
        assert(self.definitions().skip(0) =~= self.definitions());
        while i < self.type_definitions.len()
            invariant
                i <= self.type_definitions@.len(),
                find_type(self.definitions(), name@) == find_type(
                    self.definitions().skip(i as int),
                    name@,
                ),
            decreases self.type_definitions@.len() - i,
        {
            let definition = &self.type_definitions[i];
            assert(self.definitions().skip(i as int)[0] == definition@);
            if definition.name == *name {
                return Some(&definition.type_);
            }
            assert(self.definitions().skip(i as int).drop_first() =~= self.definitions().skip(
                i + 1,
            ));
            i = i + 1;
        }
        assert(self.definitions().skip(i as int) =~= Seq::<(Seq<char>, TypeModel)>::empty());
        None
    }

    /// `type_` with references followed until it is not a reference.
    pub fn resolve(&self, type_: &Type) -> (result: Result<Type, CompileError>)
        ensures
            type_result(result) == self.resolved(type_@),
    {
        let mut current = type_.clone();
        let mut fuel: usize = self.type_definitions.len();
        while current.is_reference()
            invariant
                fuel <= self.definitions().len(),
                resolve_type(self.definitions(), type_@, self.definitions().len())
                    == resolve_type(self.definitions(), current@, fuel as nat),
            decreases fuel,
        {
            let name = match &current {
                Type::Reference(name) => name.clone(),
                _ => {
                    assert(false);
                    String::new()
                },
            };
            match self.find(&name) {
                None => return Err(CompileError::TypeNotFound(name)),
                Some(defined) => {
                    if fuel == 0 {
                        return Err(CompileError::TypeReferenceCycle(name));
                    }
                    current = defined.clone();
                    fuel = fuel - 1;
                },
            }
        }
        Ok(current)
    }

    /// The type that a reference names, resolved.
    pub fn resolve_reference(&self, type_: &Type) -> (result: Result<Type, CompileError>)
        ensures
            type_result(result) == self.resolved(type_@),
    {
        self.resolve(type_)
    }
}

impl Type {
    pub open spec fn is_reference_spec(&self) -> bool {
        self is Reference
    }

    /// Whether this is a reference to a type definition.
    #[verifier::when_used_as_spec(is_reference_spec)]
    pub fn is_reference(&self) -> (is_reference: bool)
        ensures
            is_reference == self is Reference,
    {
        match self {
            Type::Reference(..) => true,
            _ => false,
        }
    }
}

} // verus!

verus! {

proof fn lemma_element_models_index(elements: Seq<RecordElement>)
    ensures
        element_models(elements).len() == elements.len(),
        forall|i: int|
            0 <= i < elements.len() ==> #[trigger] element_models(elements)[i] == (
                elements[i].name@,
                elements[i].type_@,
            ),
    decreases elements.len(),
{
    if elements.len() > 0 {
        lemma_element_models_index(elements.drop_last());
    }
}

/// Whether two types are the same: the same structure with the same names.
#[verifier::loop_isolation(false)]
pub fn same_type(a: &Type, b: &Type) -> (same: bool)
    ensures
        same == (a@ == b@),
    decreases a,
{
    match (a, b) {
        (Type::Boolean, Type::Boolean) => true,
        (Type::Function(a_argument, a_result), Type::Function(b_argument, b_result)) => {
            same_type(a_argument, b_argument) && same_type(a_result, b_result)
        },
        (Type::NoneType, Type::NoneType) => true,
        (Type::Number, Type::Number) => true,
        (Type::Record(a_record), Type::Record(b_record)) => {
            if a_record.name != b_record.name {
                return false;
            }
            if a_record.elements.len() != b_record.elements.len() {
                proof {
                    lemma_element_models_index(a_record.elements@);
                    lemma_element_models_index(b_record.elements@);
                }
                return false;
            }
            proof {
                lemma_element_models_index(a_record.elements@);
                lemma_element_models_index(b_record.elements@);
            }
            let mut i: usize = 0;
            while i < a_record.elements.len()
                invariant
                    i <= a_record.elements@.len(),
                    forall|j: int|
                        0 <= j < i ==> #[trigger] element_models(a_record.elements@)[j]
                            == element_models(b_record.elements@)[j],
                decreases a_record.elements@.len() - i,
            {
                let x = &a_record.elements[i];
                let y = &b_record.elements[i];
                if x.name != y.name || !same_type(&x.type_, &y.type_) {
                    assert(element_models(a_record.elements@)[i as int] != element_models(
                        b_record.elements@,
                    )[i as int]);
                    return false;
                }
                i = i + 1;
            }
            assert(element_models(a_record.elements@) =~= element_models(b_record.elements@));
            true
        },
        (Type::Reference(a_name), Type::Reference(b_name)) => *a_name == *b_name,
        (Type::Unknown(a_information), Type::Unknown(b_information)) => a_information.source_name
            == b_information.source_name && a_information.location == b_information.location,
        _ => false,
    }
}

/// A boolean result viewed: the boolean or the view of its error.
pub open spec fn bool_result(result: Result<bool, CompileError>) -> Result<bool, CompileErrorModel>
    {
    match result {
        Ok(value) => Ok(value),
        Err(error) => Err(error@),
    }
}

/// Compares types after resolving references.
#[derive(Debug)]
pub struct TypeEqualityChecker {
    reference_type_resolver: std::rc::Rc<ReferenceTypeResolver>,
}

impl TypeEqualityChecker {
    /// The resolver that this checker resolves types with.
    pub closed spec fn resolver(&self) -> ReferenceTypeResolver {
        *self.reference_type_resolver
    }

    pub fn new(reference_type_resolver: std::rc::Rc<ReferenceTypeResolver>) -> (checker: Self)
        ensures
            checker.resolver() == *reference_type_resolver,
    {
        TypeEqualityChecker { reference_type_resolver }
    }

    /// Whether `a` and `b` are the same type once resolved; an error where
    /// either fails to resolve, `a` first.
    pub fn equal(&self, a: &Type, b: &Type) -> (result: Result<bool, CompileError>)
        ensures
            bool_result(result) == match (self.resolver().resolved(a@), self.resolver().resolved(
                b@,
            )) {
                (Err(error), _) => Err(error),
                (Ok(_), Err(error)) => Err(error),
                (Ok(x), Ok(y)) => Ok(x == y),
            },
    {
        let x = self.reference_type_resolver.resolve(a)?;
        let y = self.reference_type_resolver.resolve(b)?;
        Ok(same_type(&x, &y))
    }
}

} // verus!

verus! {

/// The names that `definitions` bind, with their types, in order.
pub open spec fn local_entries(definitions: Seq<crate::syntax::Definition>) -> Seq<
    (Seq<char>, TypeModel),
> {
    definitions.map_values(|d: crate::syntax::Definition| (d.defined_name(), d.defined_type()@))
}

/// The type of `expression` where `variables` gives the types of the
/// variables in scope and `definitions` the type definitions: an
/// application has the result type of its function's type once resolved, a
/// comparison is boolean, a `let` has the type of its expression with its
/// definitions in scope, and a record construction has the type it names.
pub open spec fn expression_type(
    definitions: Seq<(Seq<char>, TypeModel)>,
    variables: Map<Seq<char>, TypeModel>,
    expression: Expression,
) -> Result<TypeModel, CompileErrorModel>
    decreases expression,
{
    match expression {
        Expression::Application(a) => match expression_type(definitions, variables, *a.function) {
            Err(error) => Err(error),
            Ok(function) => match resolve_type(definitions, function, definitions.len()) {
                Err(error) => Err(error),
                Ok(resolved) => match resolved {
                    TypeModel::Function(_, result) => Ok(*result),
                    _ => Err(CompileErrorModel::FunctionExpected),
                },
            },
        },
        Expression::Boolean(..) => Ok(TypeModel::Boolean),
        Expression::EqualityOperation(_) => Ok(TypeModel::Boolean),
        Expression::Let(l) => expression_type(
            definitions,
            variables.union_prefer_right(entries_map(local_entries(l.definitions@))),
            *l.expression,
        ),
        Expression::NoneLiteral(_) => Ok(TypeModel::NoneType),
        Expression::Number(..) => Ok(TypeModel::Number),
        Expression::RecordConstruction(r) => Ok(r.type_@),
        Expression::Variable(v) => if variables.contains_key(v.name@) {
            Ok(variables[v.name@])
        } else {
            Err(CompileErrorModel::VariableNotFound(v.name@))
        },
    }
}

proof fn lemma_entries_map_concat(
    first: Seq<(Seq<char>, TypeModel)>,
    second: Seq<(Seq<char>, TypeModel)>,
)
    ensures
        entries_map(first + second) == entries_map(first).union_prefer_right(entries_map(second)),
    decreases second.len(),
{
    if second.len() == 0 {
        assert(first + second =~= first);
        assert(entries_map(first).union_prefer_right(entries_map(second)) =~= entries_map(first));
    } else {
        lemma_entries_map_concat(first, second.drop_last());
        assert((first + second).drop_last() =~= first + second.drop_last());
        assert(entries_map(first + second) =~= entries_map(first).union_prefer_right(
            entries_map(second),
        ));
    }
}

/// Extracts the types of expressions.
#[derive(Debug)]
pub struct ExpressionTypeExtractor {
    reference_type_resolver: std::rc::Rc<ReferenceTypeResolver>,
}

impl ExpressionTypeExtractor {
    /// The resolver that this extractor resolves function types with.
    pub closed spec fn resolver(&self) -> ReferenceTypeResolver {
        *self.reference_type_resolver
    }

    pub fn new(reference_type_resolver: std::rc::Rc<ReferenceTypeResolver>) -> (extractor: Self)
        ensures
            extractor.resolver() == *reference_type_resolver,
    {
        ExpressionTypeExtractor { reference_type_resolver }
    }

    /// The type of `expression` where `variables` gives the types of the
    /// variables in scope.
    pub fn extract(&self, expression: &Expression, variables: &TypeEnvironment) -> (result: Result<
        Type,
        CompileError,
    >)
        ensures
            type_result(result) == expression_type(
                self.resolver().definitions(),
                variables@,
                *expression,
            ),
    {
        let mut locals: Vec<crate::items::TypedName> = Vec::new();
        let result = self.extract_in(expression, variables, &mut locals);
        assert(entries_map(crate::items::typed_names_model(Seq::empty())) =~= Map::empty());
        assert(variables@.union_prefer_right(Map::empty()) =~= variables@);
        assert(crate::items::typed_names_model(Seq::empty()) =~= Seq::empty());
        result
    }

    #[verifier::loop_isolation(false)]
    fn extract_in(
        &self,
        expression: &Expression,
        variables: &TypeEnvironment,
        locals: &mut Vec<crate::items::TypedName>,
    ) -> (result: Result<Type, CompileError>)
        ensures
            type_result(result) == expression_type(
                self.resolver().definitions(),
                variables@.union_prefer_right(
                    entries_map(crate::items::typed_names_model(old(locals)@)),
                ),
                *expression,
            ),
            final(locals)@ == old(locals)@,
        decreases expression,
    {
        let ghost scope = variables@.union_prefer_right(
            entries_map(crate::items::typed_names_model(locals@)),
        );
        let ghost local_models = crate::items::typed_names_model(locals@);
        match expression {
            Expression::Application(a) => {
                let function = self.extract_in(&a.function, variables, locals)?;
                let resolved = self.reference_type_resolver.resolve(&function)?;
                match resolved {
                    Type::Function(_, result) => Ok(*result),
                    _ => Err(CompileError::FunctionExpected),
                }
            },
            Expression::Boolean(..) => Ok(Type::Boolean),
            Expression::EqualityOperation(_) => Ok(Type::Boolean),
            Expression::Let(l) => {
                let initial_length = locals.len();
                let ghost initial = locals@;
                let mut i: usize = 0;
                while i < l.definitions.len()
                    invariant
                        i <= l.definitions@.len(),
                        initial_length == initial.len(),
                        locals@.len() == initial.len() + i,
                        locals@.subrange(0, initial.len() as int) == initial,
                        crate::items::typed_names_model(locals@) == crate::items::typed_names_model(
                            initial,
                        ) + local_entries(l.definitions@.take(i as int)),
                    decreases l.definitions@.len() - i,
                {
                    let definition = &l.definitions[i];
                    let ghost before = locals@;
                    let entry = crate::items::TypedName {
                        name: String::from_str(definition.name()),
                        type_: definition.type_().clone(),
                    };
                    assert(entry@ == (definition.defined_name(), definition.defined_type()@));
                    locals.push(entry);
                    proof {
                        assert(crate::items::typed_names_model(locals@) =~=
                            crate::items::typed_names_model(
                            before,
                        ).push(entry@));
                        assert(local_entries(l.definitions@.take(i + 1)) =~= local_entries(
                            l.definitions@.take(i as int),
                        ).push((definition.defined_name(), definition.defined_type()@)));
                        assert(locals@.subrange(0, initial.len() as int) =~= before.subrange(
                            0,
                            initial.len() as int,
                        ));
                        assert(crate::items::typed_names_model(locals@) =~=
                            crate::items::typed_names_model(
                            initial,
                        ) + local_entries(l.definitions@.take(i + 1)));
                    }
                    i = i + 1;
                }
                proof {
                    assert(l.definitions@.take(i as int) =~= l.definitions@);
                    lemma_entries_map_concat(local_models, local_entries(l.definitions@));
                    assert(variables@.union_prefer_right(
                        entries_map(crate::items::typed_names_model(locals@)),
                    ) =~= scope.union_prefer_right(entries_map(local_entries(l.definitions@))));
                }
                let result = self.extract_in(&l.expression, variables, locals);
                locals.truncate(initial_length);
                assert(locals@ =~= initial);
                result
            },
            Expression::NoneLiteral(_) => Ok(Type::NoneType),
            Expression::Number(..) => Ok(Type::Number),
            Expression::RecordConstruction(r) => Ok(r.type_.clone()),
            Expression::Variable(v) => {
                let mut j: usize = locals.len();
                while j > 0
                    invariant
                        j <= locals@.len(),
                        local_models == crate::items::typed_names_model(locals@),
                        scope == variables@.union_prefer_right(entries_map(local_models)),
                        forall|k: int| j <= k < locals@.len() ==> #[trigger] locals@[k].name@ !=
                            v.name@,
                    decreases j,
                {
                    j = j - 1;
                    if locals[j].name == v.name {
                        proof {
                            assert(local_models[j as int] == locals@[j as int]@);
                            assert forall|k: int| j < k < local_models.len() implies
                                local_models[k].0
                                != local_models[j as int].0 by {
                                assert(local_models[k] == locals@[k]@);
                            }
                            lemma_entries_map_last(local_models, j as int);
                            assert(local_models[j as int].0 == v.name@);
                            assert(scope.contains_key(v.name@));
                            assert(scope[v.name@] == local_models[j as int].1);
                        }
                        let found = locals[j].type_.clone();
                        assert(found@ == local_models[j as int].1);
                        assert(expression_type(self.resolver().definitions(), scope, *expression) ==
                            Ok::<TypeModel, CompileErrorModel>(found@));
                        return Ok(found);
                    }
                }
                proof {
                    assert forall|k: int| 0 <= k < local_models.len() implies local_models[k].0
                        != v.name@ by {
                        assert(local_models[k] == locals@[k]@);
                    }
                    lemma_entries_map_absent(local_models, v.name@);
                }
                match variables.get(v.name.as_str()) {
                    Some(type_) => Ok(type_.clone()),
                    None => Err(CompileError::VariableNotFound(v.name.clone())),
                }
            },
        }
    }
}

} // verus!

verus! {

/// The type of the first element named `name` among `elements`.
pub open spec fn element_models_find(elements: Seq<(Seq<char>, TypeModel)>, name: Seq<char>) ->
    Option<
    TypeModel,
>
    decreases elements.len(),
{
    if elements.len() == 0 {
        None
    } else if elements[0].0 == name {
        Some(elements[0].1)
    } else {
        element_models_find(elements.drop_first(), name)
    }
}

impl RecordType {
    /// The type of this record type's first element named `name`.
    pub fn element_type(&self, name: &String) -> (found: Option<&Type>)
        ensures
            match found {
                Some(type_) => element_models_find(element_models(self.elements@), name@) == Some(
                    type_@,
                ),
                None => element_models_find(element_models(self.elements@), name@) is None,
            },
    {
        let ghost all = element_models(self.elements@);
        proof {
            lemma_element_models_index(self.elements@);
            assert(all.skip(0) =~= all);
        }
        let mut i: usize = 0;
        while i < self.elements.len()
            invariant
                i <= self.elements@.len(),
                all == element_models(self.elements@),
                all.len() == self.elements@.len(),
                forall|k: int|
                    0 <= k < self.elements@.len() ==> #[trigger] all[k] == (
                        self.elements@[k].name@,
                        self.elements@[k].type_@,
                    ),
                element_models_find(all, name@) == element_models_find(all.skip(i as int), name@),
            decreases self.elements@.len() - i,
        {
            let element = &self.elements[i];
            assert(all.skip(i as int)[0] == all[i as int]);
            if element.name == *name {
                return Some(&element.type_);
            }
            assert(all.skip(i as int).drop_first() =~= all.skip(i + 1));
            i = i + 1;
        }
        assert(all.skip(i as int) =~= Seq::<(Seq<char>, TypeModel)>::empty());
        None
    }
}

} // verus!

verus! {

/// A comparison is a boolean, whatever the type of its operands and
/// whatever variables are in scope.
pub proof fn lemma_comparison_is_boolean(
    definitions: Seq<(Seq<char>, TypeModel)>,
    variables: Map<Seq<char>, TypeModel>,
    expression: Expression,
)
    requires
        expression is EqualityOperation,
    ensures
        expression_type(definitions, variables, expression) == Ok::<TypeModel, CompileErrorModel>(
            TypeModel::Boolean,
        ),
{
}

} // verus!
