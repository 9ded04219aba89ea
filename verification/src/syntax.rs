//! The abstract syntax of the Sloth language: types, expressions and
//! definitions, with source information, and their bottom-up
//! transformations.
use vstd::prelude::*;
use crate::location::Location;

verus! {

/// Where a piece of syntax comes from: the source's name and a location in
/// it.
#[derive(Debug)]
pub struct SourceInformation {
    pub source_name: String,
    pub location: Location,
}

impl SourceInformation {
    pub fn new(source_name: &str, location: Location) -> (information: Self)
        ensures
            information.source_name@ == source_name@,
            information.location == location,
    {
        SourceInformation { source_name: String::from_str(source_name), location }
    }
}

impl Clone for SourceInformation {
    fn clone(&self) -> (copy: Self)
        ensures
            copy == *self,
    {
        SourceInformation { source_name: self.source_name.clone(), location: self.location }
    }
}

/// A type of the language.
#[derive(Debug)]
pub enum Type {
    Boolean,
    /// A function from its argument type to its result type.
    Function(Box<Type>, Box<Type>),
    /// The type of the `none` value.
    NoneType,
    Number,
    Record(RecordType),
    /// A type by the name of its definition.
    Reference(String),
    /// A type yet to be inferred, with where it was written.
    Unknown(SourceInformation),
}

/// A record type: its name and its elements, in order.
#[derive(Debug)]
pub struct RecordType {
    pub name: String,
    pub elements: Vec<RecordElement>,
}

/// An element of a record type: its name and type.
#[derive(Debug)]
pub struct RecordElement {
    pub name: String,
    pub type_: Type,
}

/// The meaning of a type, with names as character sequences.
pub enum TypeModel {
    Boolean,
    Function(Box<TypeModel>, Box<TypeModel>),
    NoneType,
    Number,
    Record(Seq<char>, Seq<(Seq<char>, TypeModel)>),
    Reference(Seq<char>),
    /// An unknown type by the name of its source and its location.
    Unknown(Seq<char>, Location),
}

pub open spec fn type_model(type_: Type) -> TypeModel
    decreases type_,
{
    match type_ {
        Type::Boolean => TypeModel::Boolean,
        Type::Function(argument, result) => TypeModel::Function(
            Box::new(type_model(*argument)),
            Box::new(type_model(*result)),
        ),
        Type::NoneType => TypeModel::NoneType,
        Type::Number => TypeModel::Number,
        Type::Record(record) => TypeModel::Record(record.name@, element_models(record.elements@)),
        Type::Reference(name) => TypeModel::Reference(name@),
        Type::Unknown(information) => TypeModel::Unknown(
            information.source_name@,
            information.location,
        ),
    }
}

pub open spec fn element_models(elements: Seq<RecordElement>) -> Seq<(Seq<char>, TypeModel)>
    decreases elements,
{
    if elements.len() == 0 {
        seq![]
    } else {
        element_models(elements.drop_last()).push(
            (elements.last().name@, type_model(elements.last().type_)),
        )
    }
}

impl View for Type {
    type V = TypeModel;

    open spec fn view(&self) -> TypeModel {
        type_model(*self)
    }
}

impl Clone for Type {
    #[verifier::loop_isolation(false)]
    fn clone(&self) -> (copy: Self)
        ensures
            copy@ == self@,
        decreases self,
    {
        match self {
            Type::Boolean => Type::Boolean,
            Type::Function(argument, result) => Type::Function(
                Box::new((**argument).clone()),
                Box::new((**result).clone()),
            ),
            Type::NoneType => Type::NoneType,
            Type::Number => Type::Number,
            Type::Record(record) => {
                let mut elements: Vec<RecordElement> = Vec::new();
                let mut i: usize = 0;
                while i < record.elements.len()
                    invariant
                        i <= record.elements@.len(),
                        element_models(elements@) == element_models(record.elements@.take(i as
                            int)),
                    decreases record.elements@.len() - i,
                {
                    let element = &record.elements[i];
                    let ghost before = elements@;
                    elements.push(
                        RecordElement { name: element.name.clone(), type_: element.type_.clone() },
                    );
                    assert(elements@.drop_last() =~= before);
                    assert(record.elements@.take(i + 1).drop_last() =~= record.elements@.take(i as
                        int));
                    i = i + 1;
                }
                assert(record.elements@.take(i as int) =~= record.elements@);
                Type::Record(RecordType { name: record.name.clone(), elements })
            },
            Type::Reference(name) => Type::Reference(name.clone()),
            Type::Unknown(information) => Type::Unknown(information.clone()),
        }
    }
}

impl Type {
    pub open spec fn is_function_spec(&self) -> bool {
        self is Function
    }

    /// Whether this is a function type.
    #[verifier::when_used_as_spec(is_function_spec)]
    pub fn is_function(&self) -> (is_function: bool)
        ensures
            is_function == self is Function,
    {
        match self {
            Type::Function(..) => true,
            _ => false,
        }
    }
}

/// Whether transforming `type_` bottom-up yields `result`, where `step`
/// relates each rebuilt type to what the transformation makes of it: the
/// argument and then the result of a function type, and the elements of a
/// record type in order, are transformed before the type itself, and the
/// first error stops the transformation.
pub open spec fn type_transformed<E>(
    step: spec_fn(Type, Result<Type, E>) -> bool,
    type_: Type,
    result: Result<Type, E>,
) -> bool
    decreases type_,
{
    match type_ {
        Type::Function(argument, to) => exists|a: Result<Type, E>|
            #[trigger] witness(a) && type_transformed(step, *argument, a) && (a is Err ==> result
                == Err::<Type, E>(a->Err_0)) && (a is Ok ==> exists|b: Result<Type, E>|
                #[trigger] witness(b) && type_transformed(step, *to, b) && (b is Err ==> result
                    == Err::<Type, E>(b->Err_0)) && (b is Ok ==> step(
                    Type::Function(Box::new(a->Ok_0), Box::new(b->Ok_0)),
                    result,
                ))),
        Type::Record(record) => exists|elements: Result<Seq<RecordElement>, E>|
            #[trigger] witness(elements) && elements_transformed(step, record.elements@, elements)
                && (elements is Err ==> result == Err::<Type, E>(elements->Err_0)) && (elements is
                    Ok
                ==> exists|vector: Vec<RecordElement>|
                #[trigger] witness(vector) && vector@ == elements->Ok_0 && step(
                    Type::Record(RecordType { name: record.name, elements: vector }),
                    result,
                )),
        _ => step(type_, result),
    }
}

/// A result with the vector of its success viewed as a sequence.
pub open spec fn sequence_result<T, E>(result: Result<Vec<T>, E>) -> Result<Seq<T>, E> {
    match result {
        Ok(vector) => Ok(vector@),
        Err(error) => Err(error),
    }
}

/// A trigger that any value satisfies.
pub open spec fn witness<T>(value: T) -> bool {
    true
}

/// Whether transforming the types of `elements` in order yields `result`;
/// the first error stops the transformation.
pub open spec fn elements_transformed<E>(
    step: spec_fn(Type, Result<Type, E>) -> bool,
    elements: Seq<RecordElement>,
    result: Result<Seq<RecordElement>, E>,
) -> bool
    decreases elements,
{
    if elements.len() == 0 {
        result == Ok::<Seq<RecordElement>, E>(seq![])
    } else {
        exists|init: Result<Seq<RecordElement>, E>|
            #[trigger] witness(init) && elements_transformed(step, elements.drop_last(), init) && (
            init is Err ==> result == Err::<Seq<RecordElement>, E>(init->Err_0)) && (init is Ok
                ==> exists|type_: Result<Type, E>|
                #[trigger] witness(type_) && type_transformed(step, elements.last().type_, type_)
                    && (type_ is Err ==> result == Err::<Seq<RecordElement>, E>(type_->Err_0)) && (
                type_ is Ok ==> result == Ok::<Seq<RecordElement>, E>(
                    init->Ok_0.push(RecordElement { name: elements.last().name, type_: type_->Ok_0
                        }),
                )))
    }
}

proof fn lemma_elements_error_extends<E>(
    step: spec_fn(Type, Result<Type, E>) -> bool,
    elements: Seq<RecordElement>,
    k: int,
    error: E,
)
    requires
        0 <= k <= elements.len(),
        elements_transformed(step, elements.take(k), Err(error)),
    ensures
        elements_transformed(step, elements, Err(error)),
    decreases elements.len() - k,
{
    if k < elements.len() {
        let next = elements.take(k + 1);
        assert(next.drop_last() =~= elements.take(k));
        assert(witness(Err::<Seq<RecordElement>, E>(error)));
        assert(elements_transformed(step, next, Err(error)));
        lemma_elements_error_extends(step, elements, k + 1, error);
    } else {
        assert(elements.take(k) =~= elements);
    }
}

/// The relation that `transform`'s contract gives between a type and what
/// it makes of it.
pub open spec fn type_step<E, F: Fn(&Type) -> Result<Type, E>>(transform: &F) -> spec_fn(
    Type,
    Result<Type, E>,
) -> bool {
    |type_: Type, result: Result<Type, E>| transform.ensures((&type_,), result)
}

impl Type {
    /// This type transformed bottom-up by `transform`.
    #[verifier::loop_isolation(false)]
    pub fn transform_types<E, F: Fn(&Type) -> Result<Type, E>>(&self, transform: &F) -> (result:
        Result<Type, E>)
        requires
            forall|type_: &Type| transform.requires((type_,)),
        ensures
            type_transformed(type_step(transform), *self, result),
        decreases self,
    {
        let ghost step = type_step(transform);
        match self {
            Type::Function(argument, to) => {
                let a = argument.transform_types(transform);
                assert(witness(a));
                match a {
                    Err(error) => Err(error),
                    Ok(argument) => {
                        let b = to.transform_types(transform);
                        assert(witness(b));
                        match b {
                            Err(error) => Err(error),
                            Ok(to) => {
                                let rebuilt = Type::Function(Box::new(argument), Box::new(to));
                                let result = transform(&rebuilt);
                                assert(step(rebuilt, result));
                                result
                            },
                        }
                    },
                }
            },
            Type::Record(record) => {
                let mut elements: Vec<RecordElement> = Vec::new();
                let mut i: usize = 0;
                assert(record.elements@.take(0) =~= Seq::<RecordElement>::empty());
                while i < record.elements.len()
                    invariant
                        i <= record.elements@.len(),
                        elements_transformed(
                            step,
                            record.elements@.take(i as int),
                            Ok::<Seq<RecordElement>, E>(elements@),
                        ),
                    decreases record.elements@.len() - i,
                {
                    let element = &record.elements[i];
                    let transformed = element.type_.transform_types(transform);
                    let ghost prefix = record.elements@.take(i + 1);
                    assert(prefix.drop_last() =~= record.elements@.take(i as int));
                    assert(witness(Ok::<Seq<RecordElement>, E>(elements@)));
                    assert(witness(transformed));
                    match transformed {
                        Err(error) => {
                            assert(elements_transformed(step, prefix, Err::<Seq<RecordElement>,
                                E>(error)));
                            proof {
                                lemma_elements_error_extends(step, record.elements@, i + 1, error);
                            }
                            assert(witness(Err::<Seq<RecordElement>, E>(error)));
                            return Err(error);
                        },
                        Ok(type_) => {
                            elements.push(RecordElement { name: element.name.clone(), type_ });
                            assert(elements_transformed(step, prefix, Ok::<Seq<RecordElement>,
                                E>(elements@)));
                        },
                    }
                    i = i + 1;
                }
                assert(record.elements@.take(i as int) =~= record.elements@);
                assert(witness(Ok::<Seq<RecordElement>, E>(elements@)));
                let rebuilt = Type::Record(RecordType { name: record.name.clone(), elements });
                let result = transform(&rebuilt);
                proof {
                    if let Type::Record(r) = rebuilt {
                        assert(witness(r.elements));
                        assert(step(Type::Record(RecordType { name: record.name, elements:
                            r.elements }), result));
                    }
                }
                result
            },
            _ => {
                let result = transform(self);
                assert(step(*self, result));
                result
            },
        }
    }
}

} // verus!

verus! {

/// An operator that compares two values.
#[derive(Clone, Copy, Debug, PartialEq, Eq, Structural)]
pub enum EqualityOperator {
    Equal,
    NotEqual,
}

/// A variable, by its name.
#[derive(Debug)]
pub struct Variable {
    pub name: String,
    pub source_information: SourceInformation,
}

/// The application of a function to an argument.
#[derive(Debug)]
pub struct Application {
    pub function: Box<Expression>,
    pub argument: Box<Expression>,
    pub source_information: SourceInformation,
}

/// A comparison of two expressions of a type.
#[derive(Debug)]
pub struct EqualityOperation {
    pub type_: Type,
    pub operator: EqualityOperator,
    pub lhs: Box<Expression>,
    pub rhs: Box<Expression>,
    pub source_information: SourceInformation,
}

/// Local definitions and an expression in their scope.
#[derive(Debug)]
pub struct Let {
    pub definitions: Vec<Definition>,
    pub expression: Box<Expression>,
    pub source_information: SourceInformation,
}

/// The construction of a record of a type from its elements' values.
#[derive(Debug)]
pub struct RecordConstruction {
    pub type_: Type,
    pub elements: Vec<RecordField>,
    pub source_information: SourceInformation,
}

/// The value of one element in a record construction.
#[derive(Debug)]
pub struct RecordField {
    pub name: String,
    pub expression: Expression,
}

/// An expression of the language.
#[derive(Debug)]
pub enum Expression {
    Application(Application),
    Boolean(bool, SourceInformation),
    EqualityOperation(EqualityOperation),
    Let(Let),
    /// The `none` value.
    NoneLiteral(SourceInformation),
    /// A number literal, by the bits of its IEEE 754 double.
    Number(u64, SourceInformation),
    RecordConstruction(RecordConstruction),
    Variable(Variable),
}

/// A function definition: its name, the names of its arguments, its body
/// and its type.
#[derive(Debug)]
pub struct FunctionDefinition {
    pub name: String,
    pub arguments: Vec<String>,
    pub body: Expression,
    pub type_: Type,
    pub source_information: SourceInformation,
}

/// A value definition: its name, body and type.
#[derive(Debug)]
pub struct ValueDefinition {
    pub name: String,
    pub body: Expression,
    pub type_: Type,
    pub source_information: SourceInformation,
}

/// A definition of a function or of a value.
#[derive(Debug)]
pub enum Definition {
    FunctionDefinition(FunctionDefinition),
    ValueDefinition(ValueDefinition),
}

/// The meaning of an expression, with names as character sequences.
pub enum ExpressionModel {
    Application(Box<ExpressionModel>, Box<ExpressionModel>, SourceInformation),
    Boolean(bool, SourceInformation),
    EqualityOperation(
        TypeModel,
        EqualityOperator,
        Box<ExpressionModel>,
        Box<ExpressionModel>,
        SourceInformation,
    ),
    Let(Seq<DefinitionModel>, Box<ExpressionModel>, SourceInformation),
    NoneLiteral(SourceInformation),
    Number(u64, SourceInformation),
    RecordConstruction(TypeModel, Seq<(Seq<char>, ExpressionModel)>, SourceInformation),
    Variable(Seq<char>, SourceInformation),
}

/// The meaning of a definition.
pub enum DefinitionModel {
    Function(Seq<char>, Seq<Seq<char>>, ExpressionModel, TypeModel, SourceInformation),
    Value(Seq<char>, ExpressionModel, TypeModel, SourceInformation),
}

pub open spec fn names_model(names: Seq<String>) -> Seq<Seq<char>> {
    names.map_values(|name: String| name@)
}

pub open spec fn expression_model(expression: Expression) -> ExpressionModel
    decreases expression,
{
    match expression {
        Expression::Application(a) => ExpressionModel::Application(
            Box::new(expression_model(*a.function)),
            Box::new(expression_model(*a.argument)),
            a.source_information,
        ),
        Expression::Boolean(value, information) => ExpressionModel::Boolean(value, information),
        Expression::EqualityOperation(o) => ExpressionModel::EqualityOperation(
            o.type_@,
            o.operator,
            Box::new(expression_model(*o.lhs)),
            Box::new(expression_model(*o.rhs)),
            o.source_information,
        ),
        Expression::Let(l) => ExpressionModel::Let(
            definition_models(l.definitions@),
            Box::new(expression_model(*l.expression)),
            l.source_information,
        ),
        Expression::NoneLiteral(information) => ExpressionModel::NoneLiteral(information),
        Expression::Number(bits, information) => ExpressionModel::Number(bits, information),
        Expression::RecordConstruction(r) => ExpressionModel::RecordConstruction(
            r.type_@,
            field_models(r.elements@),
            r.source_information,
        ),
        Expression::Variable(v) => ExpressionModel::Variable(v.name@, v.source_information),
    }
}

pub open spec fn definition_model(definition: Definition) -> DefinitionModel
    decreases definition,
{
    match definition {
        Definition::FunctionDefinition(f) => DefinitionModel::Function(
            f.name@,
            names_model(f.arguments@),
            expression_model(f.body),
            f.type_@,
            f.source_information,
        ),
        Definition::ValueDefinition(v) => DefinitionModel::Value(
            v.name@,
            expression_model(v.body),
            v.type_@,
            v.source_information,
        ),
    }
}

pub open spec fn definition_models(definitions: Seq<Definition>) -> Seq<DefinitionModel>
    decreases definitions,
{
    if definitions.len() == 0 {
        seq![]
    } else {
        definition_models(definitions.drop_last()).push(definition_model(definitions.last()))
    }
}

pub open spec fn field_models(fields: Seq<RecordField>) -> Seq<(Seq<char>, ExpressionModel)>
    decreases fields,
{
    if fields.len() == 0 {
        seq![]
    } else {
        field_models(fields.drop_last()).push(
            (fields.last().name@, expression_model(fields.last().expression)),
        )
    }
}

impl View for Expression {
    type V = ExpressionModel;

    open spec fn view(&self) -> ExpressionModel {
        expression_model(*self)
    }
}

impl View for Definition {
    type V = DefinitionModel;

    open spec fn view(&self) -> DefinitionModel {
        definition_model(*self)
    }
}

impl Clone for Variable {
    fn clone(&self) -> (copy: Self)
        ensures
            copy == *self,
    {
        Variable { name: self.name.clone(), source_information: self.source_information.clone() }
    }
}

/// A copy of a sequence of names.
pub fn copy_names(names: &Vec<String>) -> (copy: Vec<String>)
    ensures
        copy@ == names@,
{
    let copy = names.clone();
    assert(copy@ =~= names@) by {
        assert forall|i: int| 0 <= i < names@.len() implies copy@[i] == names@[i] by {
            assert(cloned::<String>(names[i], copy[i]));
        }
    }
    copy
}

impl Clone for Expression {
    #[verifier::loop_isolation(false)]
    fn clone(&self) -> (copy: Self)
        ensures
            copy@ == self@,
        decreases self,
    {
        match self {
            Expression::Application(a) => Expression::Application(
                Application {
                    function: Box::new((*a.function).clone()),
                    argument: Box::new((*a.argument).clone()),
                    source_information: a.source_information.clone(),
                },
            ),
            Expression::Boolean(value, information) => Expression::Boolean(
                *value,
                information.clone(),
            ),
            Expression::EqualityOperation(o) => Expression::EqualityOperation(
                EqualityOperation {
                    type_: o.type_.clone(),
                    operator: o.operator,
                    lhs: Box::new((*o.lhs).clone()),
                    rhs: Box::new((*o.rhs).clone()),
                    source_information: o.source_information.clone(),
                },
            ),
            Expression::Let(l) => {
                let mut definitions: Vec<Definition> = Vec::new();
                let mut i: usize = 0;
                while i < l.definitions.len()
                    invariant
                        i <= l.definitions@.len(),
                        definition_models(definitions@) == definition_models(
                            l.definitions@.take(i as int),
                        ),
                    decreases l.definitions@.len() - i,
                {
                    let ghost before = definitions@;
                    let copy = l.definitions[i].clone();
                    definitions.push(copy);
                    assert(definitions@.drop_last() =~= before);
                    assert(l.definitions@.take(i + 1).drop_last() =~= l.definitions@.take(
                        i as int,
                    ));
                    i = i + 1;
                }
                assert(l.definitions@.take(i as int) =~= l.definitions@);
                Expression::Let(
                    Let {
                        definitions,
                        expression: Box::new((*l.expression).clone()),
                        source_information: l.source_information.clone(),
                    },
                )
            },
            Expression::NoneLiteral(information) => Expression::NoneLiteral(information.clone()),
            Expression::Number(bits, information) => Expression::Number(
                *bits,
                information.clone(),
            ),
            Expression::RecordConstruction(r) => {
                let mut elements: Vec<RecordField> = Vec::new();
                let mut i: usize = 0;
                while i < r.elements.len()
                    invariant
                        i <= r.elements@.len(),
                        field_models(elements@) == field_models(r.elements@.take(i as int)),
                    decreases r.elements@.len() - i,
                {
                    let ghost before = elements@;
                    let field = &r.elements[i];
                    elements.push(
                        RecordField { name: field.name.clone(), expression: field.expression.clone()
                            },
                    );
                    assert(elements@.drop_last() =~= before);
                    assert(r.elements@.take(i + 1).drop_last() =~= r.elements@.take(i as int));
                    i = i + 1;
                }
                assert(r.elements@.take(i as int) =~= r.elements@);
                Expression::RecordConstruction(
                    RecordConstruction {
                        type_: r.type_.clone(),
                        elements,
                        source_information: r.source_information.clone(),
                    },
                )
            },
            Expression::Variable(v) => Expression::Variable(v.clone()),
        }
    }
}

impl Clone for Definition {
    fn clone(&self) -> (copy: Self)
        ensures
            copy@ == self@,
        decreases self,
    {
        match self {
            Definition::FunctionDefinition(f) => Definition::FunctionDefinition(
                FunctionDefinition {
                    name: f.name.clone(),
                    arguments: copy_names(&f.arguments),
                    body: f.body.clone(),
                    type_: f.type_.clone(),
                    source_information: f.source_information.clone(),
                },
            ),
            Definition::ValueDefinition(v) => Definition::ValueDefinition(
                ValueDefinition {
                    name: v.name.clone(),
                    body: v.body.clone(),
                    type_: v.type_.clone(),
                    source_information: v.source_information.clone(),
                },
            ),
        }
    }
}

} // verus!

verus! {

/// The relation that `transform`'s contract gives between an expression and
/// what it makes of it.
pub open spec fn expression_step<E, F: Fn(&Expression) -> Result<Expression, E>>(
    transform: &F,
) -> spec_fn(Expression, Result<Expression, E>) -> bool {
    |expression: Expression, result: Result<Expression, E>|
        transform.ensures((&expression,), result)
}

/// Whether transforming `expression` bottom-up yields `result`, where `step`
/// relates each rebuilt expression to what the transformation makes of it.
/// The subexpressions are transformed first, in order (a function before its
/// argument, the left operand before the right one, the local definitions
/// before the expression in their scope, record elements in order), the
/// expression rebuilt from their results is handed to `step`, and the first
/// error stops the transformation.
pub open spec fn expression_transformed<E>(
    step: spec_fn(Expression, Result<Expression, E>) -> bool,
    expression: Expression,
    result: Result<Expression, E>,
) -> bool
    decreases expression,
{
    match expression {
        Expression::Application(a) => exists|f: Result<Expression, E>|
            #[trigger] witness(f) && expression_transformed(step, *a.function, f) && (f is Err
                ==> result == Err::<Expression, E>(f->Err_0)) && (f is Ok ==> exists|
                x: Result<Expression, E>,
            |
                #[trigger] witness(x) && expression_transformed(step, *a.argument, x) && (x is Err
                    ==> result == Err::<Expression, E>(x->Err_0)) && (x is Ok ==> exists|
                    node: Expression,
                |
                    #[trigger] witness(node) && node@ == ExpressionModel::Application(
                        Box::new(f->Ok_0@),
                        Box::new(x->Ok_0@),
                        a.source_information,
                    ) && step(node, result))),
        Expression::EqualityOperation(o) => exists|l: Result<Expression, E>|
            #[trigger] witness(l) && expression_transformed(step, *o.lhs, l) && (l is Err ==> result
                == Err::<Expression, E>(l->Err_0)) && (l is Ok ==> exists|r: Result<Expression, E>|
                #[trigger] witness(r) && expression_transformed(step, *o.rhs, r) && (r is Err
                    ==> result == Err::<Expression, E>(r->Err_0)) && (r is Ok ==> exists|
                    node: Expression,
                |
                    #[trigger] witness(node) && node@ == ExpressionModel::EqualityOperation(
                        o.type_@,
                        o.operator,
                        Box::new(l->Ok_0@),
                        Box::new(r->Ok_0@),
                        o.source_information,
                    ) && step(node, result))),
        Expression::Let(l) => exists|d: Result<Seq<Definition>, E>|
            #[trigger] witness(d) && definitions_transformed(step, l.definitions@, d) && (d is Err
                ==> result == Err::<Expression, E>(d->Err_0)) && (d is Ok ==> exists|
                x: Result<Expression, E>,
            |
                #[trigger] witness(x) && expression_transformed(step, *l.expression, x) && (x is Err
                    ==> result == Err::<Expression, E>(x->Err_0)) && (x is Ok ==> exists|
                    node: Expression,
                |
                    #[trigger] witness(node) && node@ == ExpressionModel::Let(
                        definition_models(d->Ok_0),
                        Box::new(x->Ok_0@),
                        l.source_information,
                    ) && step(node, result))),
        Expression::RecordConstruction(r) => exists|e: Result<Seq<RecordField>, E>|
            #[trigger] witness(e) && fields_transformed(step, r.elements@, e) && (e is Err ==>
                result
                == Err::<Expression, E>(e->Err_0)) && (e is Ok ==> exists|node: Expression|
                #[trigger] witness(node) && node@ == ExpressionModel::RecordConstruction(
                    r.type_@,
                    field_models(e->Ok_0),
                    r.source_information,
                ) && step(node, result)),
        _ => step(expression, result),
    }
}

/// Whether transforming the body of `definition` yields `result`: the
/// definition with the transformed body and nothing else changed, or the
/// first error.
pub open spec fn definition_transformed<E>(
    step: spec_fn(Expression, Result<Expression, E>) -> bool,
    definition: Definition,
    result: Result<Definition, E>,
) -> bool
    decreases definition,
{
    match definition {
        Definition::FunctionDefinition(f) => exists|b: Result<Expression, E>|
            #[trigger] witness(b) && expression_transformed(step, f.body, b) && (b is Err ==> result
                == Err::<Definition, E>(b->Err_0)) && (b is Ok ==> result is Ok && result->Ok_0@
                == DefinitionModel::Function(
                f.name@,
                names_model(f.arguments@),
                b->Ok_0@,
                f.type_@,
                f.source_information,
            )),
        Definition::ValueDefinition(v) => exists|b: Result<Expression, E>|
            #[trigger] witness(b) && expression_transformed(step, v.body, b) && (b is Err ==> result
                == Err::<Definition, E>(b->Err_0)) && (b is Ok ==> result is Ok && result->Ok_0@
                == DefinitionModel::Value(v.name@, b->Ok_0@, v.type_@, v.source_information)),
    }
}

/// Whether transforming the bodies of `definitions` in order yields
/// `result`; the first error stops the transformation.
pub open spec fn definitions_transformed<E>(
    step: spec_fn(Expression, Result<Expression, E>) -> bool,
    definitions: Seq<Definition>,
    result: Result<Seq<Definition>, E>,
) -> bool
    decreases definitions,
{
    if definitions.len() == 0 {
        result == Ok::<Seq<Definition>, E>(seq![])
    } else {
        exists|init: Result<Seq<Definition>, E>|
            #[trigger] witness(init) && definitions_transformed(step, definitions.drop_last(), init)
                && (init is Err ==> result == Err::<Seq<Definition>, E>(init->Err_0)) && (init is Ok
                ==> exists|d: Result<Definition, E>|
                #[trigger] witness(d) && definition_transformed(step, definitions.last(), d) && (
                d is Err ==> result == Err::<Seq<Definition>, E>(d->Err_0)) && (d is Ok ==> result
                    == Ok::<Seq<Definition>, E>(init->Ok_0.push(d->Ok_0))))
    }
}

/// Whether transforming the expressions of `fields` in order yields
/// `result`; the first error stops the transformation.
pub open spec fn fields_transformed<E>(
    step: spec_fn(Expression, Result<Expression, E>) -> bool,
    fields: Seq<RecordField>,
    result: Result<Seq<RecordField>, E>,
) -> bool
    decreases fields,
{
    if fields.len() == 0 {
        result == Ok::<Seq<RecordField>, E>(seq![])
    } else {
        exists|init: Result<Seq<RecordField>, E>|
            #[trigger] witness(init) && fields_transformed(step, fields.drop_last(), init) && (init
                is Err
                ==> result == Err::<Seq<RecordField>, E>(init->Err_0)) && (init is Ok ==> exists|
                x: Result<Expression, E>,
            |
                #[trigger] witness(x) && expression_transformed(step, fields.last().expression, x)
                    && (x is Err ==> result == Err::<Seq<RecordField>, E>(x->Err_0)) && (x is Ok
                    ==> result == Ok::<Seq<RecordField>, E>(
                    init->Ok_0.push(RecordField { name: fields.last().name, expression: x->Ok_0 }),
                )))
    }
}

proof fn lemma_definitions_error_extends<E>(
    step: spec_fn(Expression, Result<Expression, E>) -> bool,
    definitions: Seq<Definition>,
    k: int,
    error: E,
)
    requires
        0 <= k <= definitions.len(),
        definitions_transformed(step, definitions.take(k), Err(error)),
    ensures
        definitions_transformed(step, definitions, Err(error)),
    decreases definitions.len() - k,
{
    if k < definitions.len() {
        let next = definitions.take(k + 1);
        assert(next.drop_last() =~= definitions.take(k));
        assert(witness(Err::<Seq<Definition>, E>(error)));
        assert(definitions_transformed(step, next, Err(error)));
        lemma_definitions_error_extends(step, definitions, k + 1, error);
    } else {
        assert(definitions.take(k) =~= definitions);
    }
}

proof fn lemma_fields_error_extends<E>(
    step: spec_fn(Expression, Result<Expression, E>) -> bool,
    fields: Seq<RecordField>,
    k: int,
    error: E,
)
    requires
        0 <= k <= fields.len(),
        fields_transformed(step, fields.take(k), Err(error)),
    ensures
        fields_transformed(step, fields, Err(error)),
    decreases fields.len() - k,
{
    if k < fields.len() {
        let next = fields.take(k + 1);
        assert(next.drop_last() =~= fields.take(k));
        assert(witness(Err::<Seq<RecordField>, E>(error)));
        assert(fields_transformed(step, next, Err(error)));
        lemma_fields_error_extends(step, fields, k + 1, error);
    } else {
        assert(fields.take(k) =~= fields);
    }
}

proof fn lemma_definition_models_push(definitions: Seq<Definition>, definition: Definition)
    ensures
        definition_models(definitions.push(definition)) == definition_models(definitions).push(
            definition@,
        ),
{
    assert(definitions.push(definition).drop_last() =~= definitions);
}

proof fn lemma_field_models_push(fields: Seq<RecordField>, field: RecordField)
    ensures
        field_models(fields.push(field)) == field_models(fields).push(
            (field.name@, field.expression@),
        ),
{
    assert(fields.push(field).drop_last() =~= fields);
}

impl Expression {
    /// This expression transformed bottom-up by `transform`: every
    /// subexpression first, then the expression rebuilt from their results.
    #[verifier::loop_isolation(false)]
    pub fn transform_expressions<E, F: Fn(&Expression) -> Result<Expression, E>>(
        &self,
        transform: &F,
    ) -> (result: Result<Expression, E>)
        requires
            forall|expression: &Expression| transform.requires((expression,)),
        ensures
            expression_transformed(expression_step(transform), *self, result),
        decreases self,
    {
        let ghost step = expression_step(transform);
        match self {
            Expression::Application(a) => {
                let f = a.function.transform_expressions(transform);
                assert(witness(f));
                let function = match f {
                    Err(error) => return Err(error),
                    Ok(function) => function,
                };
                let x = a.argument.transform_expressions(transform);
                assert(witness(x));
                let argument = match x {
                    Err(error) => return Err(error),
                    Ok(argument) => argument,
                };
                let node = Expression::Application(
                    Application {
                        function: Box::new(function),
                        argument: Box::new(argument),
                        source_information: a.source_information.clone(),
                    },
                );
                let result = transform(&node);
                assert(witness(node) && step(node, result));
                result
            },
            Expression::EqualityOperation(o) => {
                let l = o.lhs.transform_expressions(transform);
                assert(witness(l));
                let lhs = match l {
                    Err(error) => return Err(error),
                    Ok(lhs) => lhs,
                };
                let r = o.rhs.transform_expressions(transform);
                assert(witness(r));
                let rhs = match r {
                    Err(error) => return Err(error),
                    Ok(rhs) => rhs,
                };
                let node = Expression::EqualityOperation(
                    EqualityOperation {
                        type_: o.type_.clone(),
                        operator: o.operator,
                        lhs: Box::new(lhs),
                        rhs: Box::new(rhs),
                        source_information: o.source_information.clone(),
                    },
                );
                let result = transform(&node);
                assert(witness(node) && step(node, result));
                result
            },
            Expression::Let(l) => {
                let d = transform_definitions_in(&l.definitions, transform);
                assert(witness(sequence_result(d)));
                let definitions = match d {
                    Err(error) => return Err(error),
                    Ok(definitions) => definitions,
                };
                let x = l.expression.transform_expressions(transform);
                assert(witness(x));
                let expression = match x {
                    Err(error) => return Err(error),
                    Ok(expression) => expression,
                };
                let ghost definitions_view = definitions@;
                let node = Expression::Let(
                    Let {
                        definitions,
                        expression: Box::new(expression),
                        source_information: l.source_information.clone(),
                    },
                );
                let result = transform(&node);
                assert(witness(node) && step(node, result));
                result
            },
            Expression::RecordConstruction(r) => {
                let mut elements: Vec<RecordField> = Vec::new();
                let mut i: usize = 0;
                assert(r.elements@.take(0) =~= Seq::<RecordField>::empty());
                while i < r.elements.len()
                    invariant
                        i <= r.elements@.len(),
                        fields_transformed(
                            step,
                            r.elements@.take(i as int),
                            Ok::<Seq<RecordField>, E>(elements@),
                        ),
                    decreases r.elements@.len() - i,
                {
                    let field = &r.elements[i];
                    let x = field.expression.transform_expressions(transform);
                    let ghost prefix = r.elements@.take(i + 1);
                    assert(prefix.drop_last() =~= r.elements@.take(i as int));
                    assert(witness(Ok::<Seq<RecordField>, E>(elements@)));
                    assert(witness(x));
                    match x {
                        Err(error) => {
                            assert(fields_transformed(step, prefix, Err::<Seq<RecordField>,
                                E>(error)));
                            proof {
                                lemma_fields_error_extends(step, r.elements@, i + 1, error);
                            }
                            assert(witness(Err::<Seq<RecordField>, E>(error)));
                            return Err(error);
                        },
                        Ok(expression) => {
                            elements.push(RecordField { name: field.name.clone(), expression });
                            assert(fields_transformed(step, prefix, Ok::<Seq<RecordField>,
                                E>(elements@)));
                        },
                    }
                    i = i + 1;
                }
                assert(r.elements@.take(i as int) =~= r.elements@);
                assert(witness(Ok::<Seq<RecordField>, E>(elements@)));
                let node = Expression::RecordConstruction(
                    RecordConstruction {
                        type_: r.type_.clone(),
                        elements,
                        source_information: r.source_information.clone(),
                    },
                );
                let result = transform(&node);
                assert(witness(node) && step(node, result));
                result
            },
            _ => {
                let result = transform(self);
                assert(step(*self, result));
                result
            },
        }
    }
}

impl Definition {
    /// This definition with its body transformed bottom-up by `transform`.
    pub fn transform_expressions<E, F: Fn(&Expression) -> Result<Expression, E>>(
        &self,
        transform: &F,
    ) -> (result: Result<Definition, E>)
        requires
            forall|expression: &Expression| transform.requires((expression,)),
        ensures
            definition_transformed(expression_step(transform), *self, result),
        decreases self,
    {
        match self {
            Definition::FunctionDefinition(f) => {
                let b = f.body.transform_expressions(transform);
                assert(witness(b));
                match b {
                    Err(error) => Err(error),
                    Ok(body) => Ok(
                        Definition::FunctionDefinition(
                            FunctionDefinition {
                                name: f.name.clone(),
                                arguments: copy_names(&f.arguments),
                                body,
                                type_: f.type_.clone(),
                                source_information: f.source_information.clone(),
                            },
                        ),
                    ),
                }
            },
            Definition::ValueDefinition(v) => {
                let b = v.body.transform_expressions(transform);
                assert(witness(b));
                match b {
                    Err(error) => Err(error),
                    Ok(body) => Ok(
                        Definition::ValueDefinition(
                            ValueDefinition {
                                name: v.name.clone(),
                                body,
                                type_: v.type_.clone(),
                                source_information: v.source_information.clone(),
                            },
                        ),
                    ),
                }
            },
        }
    }
}

/// The bodies of `definitions` transformed bottom-up by `transform`, in
/// order.
#[verifier::loop_isolation(false)]
fn transform_definitions_in<E, F: Fn(&Expression) -> Result<Expression, E>>(
    definitions: &Vec<Definition>,
    transform: &F,
) -> (result: Result<Vec<Definition>, E>)
    requires
        forall|expression: &Expression| transform.requires((expression,)),
    ensures
        definitions_transformed(
            expression_step(transform),
            definitions@,
            sequence_result(result),
        ),
    decreases definitions, 0nat,
{
    let ghost step = expression_step(transform);
    let mut transformed: Vec<Definition> = Vec::new();
    let mut i: usize = 0;
    assert(definitions@.take(0) =~= Seq::<Definition>::empty());
    while i < definitions.len()
        invariant
            i <= definitions@.len(),
            definitions_transformed(
                step,
                definitions@.take(i as int),
                Ok::<Seq<Definition>, E>(transformed@),
            ),
        decreases definitions@.len() - i,
    {
        let d = definitions[i].transform_expressions(transform);
        let ghost prefix = definitions@.take(i + 1);
        assert(prefix.drop_last() =~= definitions@.take(i as int));
        assert(witness(Ok::<Seq<Definition>, E>(transformed@)));
        assert(witness(d));
        match d {
            Err(error) => {
                assert(definitions_transformed(step, prefix, Err::<Seq<Definition>, E>(error)));
                proof {
                    lemma_definitions_error_extends(step, definitions@, i + 1, error);
                }
                return Err(error);
            },
            Ok(definition) => {
                transformed.push(definition);
                assert(definitions_transformed(step, prefix, Ok::<Seq<Definition>,
                    E>(transformed@)));
            },
        }
        i = i + 1;
    }
    assert(definitions@.take(i as int) =~= definitions@);
    Ok(transformed)
}

} // verus!

verus! {

/// Whether transforming the types in `expression` yields `result`, where
/// `step` relates each rebuilt type to what the transformation makes of it.
/// The type of a comparison or of a record construction is transformed
/// before its subexpressions, and the subexpressions in order; the first
/// error stops the transformation, and everything but types is kept.
pub open spec fn expression_types_transformed<E>(
    step: spec_fn(Type, Result<Type, E>) -> bool,
    expression: Expression,
    result: Result<Expression, E>,
) -> bool
    decreases expression,
{
    match expression {
        Expression::Application(a) => exists|f: Result<Expression, E>|
            #[trigger] witness(f) && expression_types_transformed(step, *a.function, f) && (f is Err
                ==> result == Err::<Expression, E>(f->Err_0)) && (f is Ok ==> exists|
                x: Result<Expression, E>,
            |
                #[trigger] witness(x) && expression_types_transformed(step, *a.argument, x) && (
                x is Err ==> result == Err::<Expression, E>(x->Err_0)) && (x is Ok ==> result is Ok
                    && result->Ok_0@ == ExpressionModel::Application(
                    Box::new(f->Ok_0@),
                    Box::new(x->Ok_0@),
                    a.source_information,
                ))),
        Expression::EqualityOperation(o) => exists|t: Result<Type, E>|
            #[trigger] witness(t) && type_transformed(step, o.type_, t) && (t is Err ==> result
                == Err::<Expression, E>(t->Err_0)) && (t is Ok ==> exists|l: Result<Expression, E>|
                #[trigger] witness(l) && expression_types_transformed(step, *o.lhs, l) && (l is Err
                    ==> result == Err::<Expression, E>(l->Err_0)) && (l is Ok ==> exists|
                    r: Result<Expression, E>,
                |
                    #[trigger] witness(r) && expression_types_transformed(step, *o.rhs, r) && (
                    r is Err ==> result == Err::<Expression, E>(r->Err_0)) && (r is Ok ==> result
                        is Ok && result->Ok_0@ == ExpressionModel::EqualityOperation(
                        t->Ok_0@,
                        o.operator,
                        Box::new(l->Ok_0@),
                        Box::new(r->Ok_0@),
                        o.source_information,
                    )))),
        Expression::Let(l) => exists|d: Result<Seq<Definition>, E>|
            #[trigger] witness(d) && definitions_types_transformed(step, l.definitions@, d) && (
            d is Err ==> result == Err::<Expression, E>(d->Err_0)) && (d is Ok ==> exists|
                x: Result<Expression, E>,
            |
                #[trigger] witness(x) && expression_types_transformed(step, *l.expression, x) && (
                x is Err ==> result == Err::<Expression, E>(x->Err_0)) && (x is Ok ==> result is Ok
                    && result->Ok_0@ == ExpressionModel::Let(
                    definition_models(d->Ok_0),
                    Box::new(x->Ok_0@),
                    l.source_information,
                ))),
        Expression::RecordConstruction(r) => exists|t: Result<Type, E>|
            #[trigger] witness(t) && type_transformed(step, r.type_, t) && (t is Err ==> result
                == Err::<Expression, E>(t->Err_0)) && (t is Ok ==> exists|
                e: Result<Seq<RecordField>, E>,
            |
                #[trigger] witness(e) && fields_types_transformed(step, r.elements@, e) && (e is Err
                    ==> result == Err::<Expression, E>(e->Err_0)) && (e is Ok ==> result is Ok
                    && result->Ok_0@ == ExpressionModel::RecordConstruction(
                    t->Ok_0@,
                    field_models(e->Ok_0),
                    r.source_information,
                ))),
        _ => result is Ok && result->Ok_0@ == expression@,
    }
}

/// Whether transforming the types in `definition` yields `result`: its type
/// first, then the types in its body.
pub open spec fn definition_types_transformed<E>(
    step: spec_fn(Type, Result<Type, E>) -> bool,
    definition: Definition,
    result: Result<Definition, E>,
) -> bool
    decreases definition,
{
    match definition {
        Definition::FunctionDefinition(f) => exists|t: Result<Type, E>|
            #[trigger] witness(t) && type_transformed(step, f.type_, t) && (t is Err ==> result
                == Err::<Definition, E>(t->Err_0)) && (t is Ok ==> exists|b: Result<Expression, E>|
                #[trigger] witness(b) && expression_types_transformed(step, f.body, b) && (b is Err
                    ==> result == Err::<Definition, E>(b->Err_0)) && (b is Ok ==> result is Ok
                    && result->Ok_0@ == DefinitionModel::Function(
                    f.name@,
                    names_model(f.arguments@),
                    b->Ok_0@,
                    t->Ok_0@,
                    f.source_information,
                ))),
        Definition::ValueDefinition(v) => exists|t: Result<Type, E>|
            #[trigger] witness(t) && type_transformed(step, v.type_, t) && (t is Err ==> result
                == Err::<Definition, E>(t->Err_0)) && (t is Ok ==> exists|b: Result<Expression, E>|
                #[trigger] witness(b) && expression_types_transformed(step, v.body, b) && (b is Err
                    ==> result == Err::<Definition, E>(b->Err_0)) && (b is Ok ==> result is Ok
                    && result->Ok_0@ == DefinitionModel::Value(
                    v.name@,
                    b->Ok_0@,
                    t->Ok_0@,
                    v.source_information,
                ))),
    }
}

/// Whether transforming the types in `definitions` in order yields
/// `result`; the first error stops the transformation.
pub open spec fn definitions_types_transformed<E>(
    step: spec_fn(Type, Result<Type, E>) -> bool,
    definitions: Seq<Definition>,
    result: Result<Seq<Definition>, E>,
) -> bool
    decreases definitions,
{
    if definitions.len() == 0 {
        result == Ok::<Seq<Definition>, E>(seq![])
    } else {
        exists|init: Result<Seq<Definition>, E>|
            #[trigger] witness(init) && definitions_types_transformed(
                step,
                definitions.drop_last(),
                init,
            ) && (init is Err ==> result == Err::<Seq<Definition>, E>(init->Err_0)) && (init is Ok
                ==> exists|d: Result<Definition, E>|
                #[trigger] witness(d) && definition_types_transformed(step, definitions.last(), d)
                    && (d is Err ==> result == Err::<Seq<Definition>, E>(d->Err_0)) && (d is Ok
                    ==> result == Ok::<Seq<Definition>, E>(init->Ok_0.push(d->Ok_0))))
    }
}

/// Whether transforming the types in the expressions of `fields` in order
/// yields `result`; the first error stops the transformation.
pub open spec fn fields_types_transformed<E>(
    step: spec_fn(Type, Result<Type, E>) -> bool,
    fields: Seq<RecordField>,
    result: Result<Seq<RecordField>, E>,
) -> bool
    decreases fields,
{
    if fields.len() == 0 {
        result == Ok::<Seq<RecordField>, E>(seq![])
    } else {
        exists|init: Result<Seq<RecordField>, E>|
            #[trigger] witness(init) && fields_types_transformed(step, fields.drop_last(), init) &&
                (
            init is Err ==> result == Err::<Seq<RecordField>, E>(init->Err_0)) && (init is Ok
                ==> exists|x: Result<Expression, E>|
                #[trigger] witness(x) && expression_types_transformed(
                    step,
                    fields.last().expression,
                    x,
                ) && (x is Err ==> result == Err::<Seq<RecordField>, E>(x->Err_0)) && (x is Ok
                    ==> result == Ok::<Seq<RecordField>, E>(
                    init->Ok_0.push(RecordField { name: fields.last().name, expression: x->Ok_0 }),
                )))
    }
}

proof fn lemma_definitions_types_error_extends<E>(
    step: spec_fn(Type, Result<Type, E>) -> bool,
    definitions: Seq<Definition>,
    k: int,
    error: E,
)
    requires
        0 <= k <= definitions.len(),
        definitions_types_transformed(step, definitions.take(k), Err(error)),
    ensures
        definitions_types_transformed(step, definitions, Err(error)),
    decreases definitions.len() - k,
{
    if k < definitions.len() {
        let next = definitions.take(k + 1);
        assert(next.drop_last() =~= definitions.take(k));
        assert(witness(Err::<Seq<Definition>, E>(error)));
        assert(definitions_types_transformed(step, next, Err(error)));
        lemma_definitions_types_error_extends(step, definitions, k + 1, error);
    } else {
        assert(definitions.take(k) =~= definitions);
    }
}

proof fn lemma_fields_types_error_extends<E>(
    step: spec_fn(Type, Result<Type, E>) -> bool,
    fields: Seq<RecordField>,
    k: int,
    error: E,
)
    requires
        0 <= k <= fields.len(),
        fields_types_transformed(step, fields.take(k), Err(error)),
    ensures
        fields_types_transformed(step, fields, Err(error)),
    decreases fields.len() - k,
{
    if k < fields.len() {
        let next = fields.take(k + 1);
        assert(next.drop_last() =~= fields.take(k));
        assert(witness(Err::<Seq<RecordField>, E>(error)));
        assert(fields_types_transformed(step, next, Err(error)));
        lemma_fields_types_error_extends(step, fields, k + 1, error);
    } else {
        assert(fields.take(k) =~= fields);
    }
}

impl Expression {
    /// This expression with every type in it transformed bottom-up by
    /// `transform`.
    #[verifier::loop_isolation(false)]
    pub fn transform_types<E, F: Fn(&Type) -> Result<Type, E>>(&self, transform: &F) -> (result:
        Result<Expression, E>)
        requires
            forall|type_: &Type| transform.requires((type_,)),
        ensures
            expression_types_transformed(type_step(transform), *self, result),
        decreases self,
    {
        let ghost step = type_step(transform);
        match self {
            Expression::Application(a) => {
                let f = a.function.transform_types(transform);
                assert(witness(f));
                let function = match f {
                    Err(error) => return Err(error),
                    Ok(function) => function,
                };
                let x = a.argument.transform_types(transform);
                assert(witness(x));
                let argument = match x {
                    Err(error) => return Err(error),
                    Ok(argument) => argument,
                };
                Ok(
                    Expression::Application(
                        Application {
                            function: Box::new(function),
                            argument: Box::new(argument),
                            source_information: a.source_information.clone(),
                        },
                    ),
                )
            },
            Expression::EqualityOperation(o) => {
                let t = o.type_.transform_types(transform);
                assert(witness(t));
                let type_ = match t {
                    Err(error) => return Err(error),
                    Ok(type_) => type_,
                };
                let l = o.lhs.transform_types(transform);
                assert(witness(l));
                let lhs = match l {
                    Err(error) => return Err(error),
                    Ok(lhs) => lhs,
                };
                let r = o.rhs.transform_types(transform);
                assert(witness(r));
                let rhs = match r {
                    Err(error) => return Err(error),
                    Ok(rhs) => rhs,
                };
                Ok(
                    Expression::EqualityOperation(
                        EqualityOperation {
                            type_,
                            operator: o.operator,
                            lhs: Box::new(lhs),
                            rhs: Box::new(rhs),
                            source_information: o.source_information.clone(),
                        },
                    ),
                )
            },
            Expression::Let(l) => {
                let d = transform_definition_types_in(&l.definitions, transform);
                assert(witness(sequence_result(d)));
                let definitions = match d {
                    Err(error) => return Err(error),
                    Ok(definitions) => definitions,
                };
                let x = l.expression.transform_types(transform);
                assert(witness(x));
                let expression = match x {
                    Err(error) => return Err(error),
                    Ok(expression) => expression,
                };
                Ok(
                    Expression::Let(
                        Let {
                            definitions,
                            expression: Box::new(expression),
                            source_information: l.source_information.clone(),
                        },
                    ),
                )
            },
            Expression::RecordConstruction(r) => {
                let t = r.type_.transform_types(transform);
                assert(witness(t));
                let type_ = match t {
                    Err(error) => return Err(error),
                    Ok(type_) => type_,
                };
                let mut elements: Vec<RecordField> = Vec::new();
                let mut i: usize = 0;
                assert(r.elements@.take(0) =~= Seq::<RecordField>::empty());
                while i < r.elements.len()
                    invariant
                        i <= r.elements@.len(),
                        fields_types_transformed(
                            step,
                            r.elements@.take(i as int),
                            Ok::<Seq<RecordField>, E>(elements@),
                        ),
                    decreases r.elements@.len() - i,
                {
                    let field = &r.elements[i];
                    let x = field.expression.transform_types(transform);
                    let ghost prefix = r.elements@.take(i + 1);
                    assert(prefix.drop_last() =~= r.elements@.take(i as int));
                    assert(witness(Ok::<Seq<RecordField>, E>(elements@)));
                    assert(witness(x));
                    match x {
                        Err(error) => {
                            assert(fields_types_transformed(step, prefix, Err::<Seq<RecordField>,
                                E>(error)));
                            proof {
                                lemma_fields_types_error_extends(step, r.elements@, i + 1, error);
                            }
                            assert(witness(Err::<Seq<RecordField>, E>(error)));
                            return Err(error);
                        },
                        Ok(expression) => {
                            elements.push(RecordField { name: field.name.clone(), expression });
                            assert(fields_types_transformed(step, prefix, Ok::<Seq<RecordField>,
                                E>(elements@)));
                        },
                    }
                    i = i + 1;
                }
                assert(r.elements@.take(i as int) =~= r.elements@);
                assert(witness(Ok::<Seq<RecordField>, E>(elements@)));
                Ok(
                    Expression::RecordConstruction(
                        RecordConstruction {
                            type_,
                            elements,
                            source_information: r.source_information.clone(),
                        },
                    ),
                )
            },
            _ => Ok(self.clone()),
        }
    }
}

impl Definition {
    /// This definition with its type, then the types in its body,
    /// transformed bottom-up by `transform`.
    pub fn transform_types<E, F: Fn(&Type) -> Result<Type, E>>(&self, transform: &F) -> (result:
        Result<Definition, E>)
        requires
            forall|type_: &Type| transform.requires((type_,)),
        ensures
            definition_types_transformed(type_step(transform), *self, result),
        decreases self,
    {
        match self {
            Definition::FunctionDefinition(f) => {
                let t = f.type_.transform_types(transform);
                assert(witness(t));
                let type_ = match t {
                    Err(error) => return Err(error),
                    Ok(type_) => type_,
                };
                let b = f.body.transform_types(transform);
                assert(witness(b));
                match b {
                    Err(error) => Err(error),
                    Ok(body) => Ok(
                        Definition::FunctionDefinition(
                            FunctionDefinition {
                                name: f.name.clone(),
                                arguments: copy_names(&f.arguments),
                                body,
                                type_,
                                source_information: f.source_information.clone(),
                            },
                        ),
                    ),
                }
            },
            Definition::ValueDefinition(v) => {
                let t = v.type_.transform_types(transform);
                assert(witness(t));
                let type_ = match t {
                    Err(error) => return Err(error),
                    Ok(type_) => type_,
                };
                let b = v.body.transform_types(transform);
                assert(witness(b));
                match b {
                    Err(error) => Err(error),
                    Ok(body) => Ok(
                        Definition::ValueDefinition(
                            ValueDefinition {
                                name: v.name.clone(),
                                body,
                                type_,
                                source_information: v.source_information.clone(),
                            },
                        ),
                    ),
                }
            },
        }
    }
}

/// The types in `definitions` transformed bottom-up by `transform`, in
/// order.
#[verifier::loop_isolation(false)]
fn transform_definition_types_in<E, F: Fn(&Type) -> Result<Type, E>>(
    definitions: &Vec<Definition>,
    transform: &F,
) -> (result: Result<Vec<Definition>, E>)
    requires
        forall|type_: &Type| transform.requires((type_,)),
    ensures
        definitions_types_transformed(type_step(transform), definitions@, sequence_result(result)),
    decreases definitions, 0nat,
{
    let ghost step = type_step(transform);
    let mut transformed: Vec<Definition> = Vec::new();
    let mut i: usize = 0;
    assert(definitions@.take(0) =~= Seq::<Definition>::empty());
    while i < definitions.len()
        invariant
            i <= definitions@.len(),
            definitions_types_transformed(
                step,
                definitions@.take(i as int),
                Ok::<Seq<Definition>, E>(transformed@),
            ),
        decreases definitions@.len() - i,
    {
        let d = definitions[i].transform_types(transform);
        let ghost prefix = definitions@.take(i + 1);
        assert(prefix.drop_last() =~= definitions@.take(i as int));
        assert(witness(Ok::<Seq<Definition>, E>(transformed@)));
        assert(witness(d));
        match d {
            Err(error) => {
                assert(definitions_types_transformed(step, prefix, Err::<Seq<Definition>,
                    E>(error)));
                proof {
                    lemma_definitions_types_error_extends(step, definitions@, i + 1, error);
                }
                return Err(error);
            },
            Ok(definition) => {
                transformed.push(definition);
                assert(definitions_types_transformed(step, prefix, Ok::<Seq<Definition>,
                    E>(transformed@)));
            },
        }
        i = i + 1;
    }
    assert(definitions@.take(i as int) =~= definitions@);
    Ok(transformed)
}

} // verus!

verus! {

impl Expression {
    pub open spec fn is_variable_spec(&self) -> bool {
        self is Variable
    }

    /// Whether this is a variable.
    #[verifier::when_used_as_spec(is_variable_spec)]
    pub fn is_variable(&self) -> (is_variable: bool)
        ensures
            is_variable == self is Variable,
    {
        match self {
            Expression::Variable(..) => true,
            _ => false,
        }
    }
}

impl Definition {
    /// The name that this definition binds.
    pub open spec fn defined_name(&self) -> Seq<char> {
        match self {
            Definition::FunctionDefinition(f) => f.name@,
            Definition::ValueDefinition(v) => v.name@,
        }
    }

    /// The type of what this definition binds.
    pub open spec fn defined_type(&self) -> Type {
        match self {
            Definition::FunctionDefinition(f) => f.type_,
            Definition::ValueDefinition(v) => v.type_,
        }
    }

    pub fn name(&self) -> (name: &str)
        ensures
            name@ == self.defined_name(),
    {
        match self {
            Definition::FunctionDefinition(f) => f.name.as_str(),
            Definition::ValueDefinition(v) => v.name.as_str(),
        }
    }

    pub fn type_(&self) -> (type_: &Type)
        ensures
            *type_ == self.defined_type(),
    {
        match self {
            Definition::FunctionDefinition(f) => &f.type_,
            Definition::ValueDefinition(v) => &v.type_,
        }
    }
}

} // verus!

verus! {

/// A transformation that holds where `first` relates expressions also
/// holds where `second` does, when every step that `first` allows `second`
/// allows.
pub proof fn lemma_expression_transformed_weaken<E>(
    first: spec_fn(Expression, Result<Expression, E>) -> bool,
    second: spec_fn(Expression, Result<Expression, E>) -> bool,
    expression: Expression,
    result: Result<Expression, E>,
)
    requires
        forall|x: Expression, r: Result<Expression, E>| #[trigger] first(x, r) ==> second(x, r),
        expression_transformed(first, expression, result),
    ensures
        expression_transformed(second, expression, result),
    decreases expression,
{
    match expression {
        Expression::Application(a) => {
            let f = choose|f: Result<Expression, E>| #[trigger] witness(f) &&
                expression_transformed(first, *a.function, f) && (f is Err ==> result ==
                Err::<Expression, E>(f->Err_0)) && (f is Ok ==> exists| x: Result<Expression, E>, |
                #[trigger] witness(x) && expression_transformed(first, *a.argument, x) && (x is Err
                ==> result == Err::<Expression, E>(x->Err_0)) && (x is Ok ==> exists| node:
                Expression, | #[trigger] witness(node) && node@ == ExpressionModel::Application(
                Box::new(f->Ok_0@), Box::new(x->Ok_0@), a.source_information, ) && first(node,
                result)));
            lemma_expression_transformed_weaken(first, second, *a.function, f);
            if f is Ok {
                let x = choose|x: Result<Expression, E>| #[trigger] witness(x) &&
                    expression_transformed(first, *a.argument, x) && (x is Err ==> result ==
                    Err::<Expression, E>(x->Err_0)) && (x is Ok ==> exists| node: Expression, |
                    #[trigger] witness(node) && node@ == ExpressionModel::Application(
                    Box::new(f->Ok_0@), Box::new(x->Ok_0@), a.source_information, ) && first(node,
                    result));
                lemma_expression_transformed_weaken(first, second, *a.argument, x);
                if x is Ok {
                    let node = choose|node: Expression| #[trigger] witness(node) && node@ ==
                        ExpressionModel::Application( Box::new(f->Ok_0@), Box::new(x->Ok_0@),
                        a.source_information, ) && first(node, result);
                    assert(second(node, result));
                    assert(witness(node));
                }
                assert(witness(x));
            }
            assert(witness(f));
        },
        Expression::EqualityOperation(o) => {
            let l = choose|l: Result<Expression, E>| #[trigger] witness(l) &&
                expression_transformed(first, *o.lhs, l) && (l is Err ==> result ==
                Err::<Expression, E>(l->Err_0)) && (l is Ok ==> exists|r: Result<Expression, E>|
                #[trigger] witness(r) && expression_transformed(first, *o.rhs, r) && (r is Err ==>
                result == Err::<Expression, E>(r->Err_0)) && (r is Ok ==> exists| node: Expression,
                | #[trigger] witness(node) && node@ == ExpressionModel::EqualityOperation( o.type_@,
                o.operator, Box::new(l->Ok_0@), Box::new(r->Ok_0@), o.source_information, ) &&
                first(node, result)));
            lemma_expression_transformed_weaken(first, second, *o.lhs, l);
            if l is Ok {
                let r = choose|r: Result<Expression, E>| #[trigger] witness(r) &&
                    expression_transformed(first, *o.rhs, r) && (r is Err ==> result ==
                    Err::<Expression, E>(r->Err_0)) && (r is Ok ==> exists| node: Expression, |
                    #[trigger] witness(node) && node@ == ExpressionModel::EqualityOperation(
                    o.type_@, o.operator, Box::new(l->Ok_0@), Box::new(r->Ok_0@),
                    o.source_information, ) && first(node, result));
                lemma_expression_transformed_weaken(first, second, *o.rhs, r);
                if r is Ok {
                    let node = choose|node: Expression| #[trigger] witness(node) && node@ ==
                        ExpressionModel::EqualityOperation( o.type_@, o.operator,
                        Box::new(l->Ok_0@), Box::new(r->Ok_0@), o.source_information, ) &&
                        first(node, result);
                    assert(second(node, result));
                    assert(witness(node));
                }
                assert(witness(r));
            }
            assert(witness(l));
        },
        Expression::Let(l) => {
            let d = choose|d: Result<Seq<Definition>, E>| #[trigger] witness(d) &&
                definitions_transformed(first, l.definitions@, d) && (d is Err ==> result ==
                Err::<Expression, E>(d->Err_0)) && (d is Ok ==> exists| x: Result<Expression, E>, |
                #[trigger] witness(x) && expression_transformed(first, *l.expression, x) && (x is
                Err ==> result == Err::<Expression, E>(x->Err_0)) && (x is Ok ==> exists| node:
                Expression, | #[trigger] witness(node) && node@ == ExpressionModel::Let(
                definition_models(d->Ok_0), Box::new(x->Ok_0@), l.source_information, ) &&
                first(node, result)));
            lemma_definitions_transformed_weaken(first, second, l.definitions@, d);
            if d is Ok {
                let x = choose|x: Result<Expression, E>| #[trigger] witness(x) &&
                    expression_transformed(first, *l.expression, x) && (x is Err ==> result ==
                    Err::<Expression, E>(x->Err_0)) && (x is Ok ==> exists| node: Expression, |
                    #[trigger] witness(node) && node@ == ExpressionModel::Let(
                    definition_models(d->Ok_0), Box::new(x->Ok_0@), l.source_information, ) &&
                    first(node, result));
                lemma_expression_transformed_weaken(first, second, *l.expression, x);
                if x is Ok {
                    let node = choose|node: Expression| #[trigger] witness(node) && node@ ==
                        ExpressionModel::Let( definition_models(d->Ok_0), Box::new(x->Ok_0@),
                        l.source_information, ) && first(node, result);
                    assert(second(node, result));
                    assert(witness(node));
                }
                assert(witness(x));
            }
            assert(witness(d));
        },
        Expression::RecordConstruction(r) => {
            let e = choose|e: Result<Seq<RecordField>, E>| #[trigger] witness(e) &&
                fields_transformed(first, r.elements@, e) && (e is Err ==> result ==
                Err::<Expression, E>(e->Err_0)) && (e is Ok ==> exists|node: Expression| #[trigger]
                witness(node) && node@ == ExpressionModel::RecordConstruction( r.type_@,
                field_models(e->Ok_0), r.source_information, ) && first(node, result));
            lemma_fields_transformed_weaken(first, second, r.elements@, e);
            if e is Ok {
                let node = choose|node: Expression| #[trigger] witness(node) && node@ ==
                    ExpressionModel::RecordConstruction( r.type_@, field_models(e->Ok_0),
                    r.source_information, ) && first(node, result);
                assert(second(node, result));
                assert(witness(node));
            }
            assert(witness(e));
        },
        _ => {},
    }
}

/// The counterpart of [`lemma_expression_transformed_weaken`] for the body
/// of a definition.
pub proof fn lemma_definition_transformed_weaken<E>(
    first: spec_fn(Expression, Result<Expression, E>) -> bool,
    second: spec_fn(Expression, Result<Expression, E>) -> bool,
    definition: Definition,
    result: Result<Definition, E>,
)
    requires
        forall|x: Expression, r: Result<Expression, E>| #[trigger] first(x, r) ==> second(x, r),
        definition_transformed(first, definition, result),
    ensures
        definition_transformed(second, definition, result),
    decreases definition,
{
    match definition {
        Definition::FunctionDefinition(f) => {
            let b = choose|b: Result<Expression, E>| #[trigger] witness(b) &&
                expression_transformed(first, f.body, b) && (b is Err ==> result ==
                Err::<Definition, E>(b->Err_0)) && (b is Ok ==> result is Ok && result->Ok_0@ ==
                DefinitionModel::Function( f.name@, names_model(f.arguments@), b->Ok_0@, f.type_@,
                f.source_information, ));
            lemma_expression_transformed_weaken(first, second, f.body, b);
            assert(witness(b));
        },
        Definition::ValueDefinition(v) => {
            let b = choose|b: Result<Expression, E>| #[trigger] witness(b) &&
                expression_transformed(first, v.body, b) && (b is Err ==> result ==
                Err::<Definition, E>(b->Err_0)) && (b is Ok ==> result is Ok && result->Ok_0@ ==
                DefinitionModel::Value(v.name@, b->Ok_0@, v.type_@, v.source_information));
            lemma_expression_transformed_weaken(first, second, v.body, b);
            assert(witness(b));
        },
    }
}

proof fn lemma_definitions_transformed_weaken<E>(
    first: spec_fn(Expression, Result<Expression, E>) -> bool,
    second: spec_fn(Expression, Result<Expression, E>) -> bool,
    definitions: Seq<Definition>,
    result: Result<Seq<Definition>, E>,
)
    requires
        forall|x: Expression, r: Result<Expression, E>| #[trigger] first(x, r) ==> second(x, r),
        definitions_transformed(first, definitions, result),
    ensures
        definitions_transformed(second, definitions, result),
    decreases definitions,
{
    if definitions.len() > 0 {
        let init = choose|init: Result<Seq<Definition>, E>| #[trigger] witness(init) &&
            definitions_transformed(first, definitions.drop_last(), init) && (init is Err ==> result
            == Err::<Seq<Definition>, E>(init->Err_0)) && (init is Ok ==> exists|d:
            Result<Definition, E>| #[trigger] witness(d) && definition_transformed(first,
            definitions.last(), d) && ( d is Err ==> result == Err::<Seq<Definition>, E>(d->Err_0))
            && (d is Ok ==> result == Ok::<Seq<Definition>, E>(init->Ok_0.push(d->Ok_0))));
        lemma_definitions_transformed_weaken(first, second, definitions.drop_last(), init);
        if init is Ok {
            let d = choose|d: Result<Definition, E>| #[trigger] witness(d) &&
                definition_transformed(first, definitions.last(), d) && ( d is Err ==> result ==
                Err::<Seq<Definition>, E>(d->Err_0)) && (d is Ok ==> result == Ok::<Seq<Definition>,
                E>(init->Ok_0.push(d->Ok_0)));
            lemma_definition_transformed_weaken(first, second, definitions.last(), d);
            assert(witness(d));
        }
        assert(witness(init));
    }
}

proof fn lemma_fields_transformed_weaken<E>(
    first: spec_fn(Expression, Result<Expression, E>) -> bool,
    second: spec_fn(Expression, Result<Expression, E>) -> bool,
    fields: Seq<RecordField>,
    result: Result<Seq<RecordField>, E>,
)
    requires
        forall|x: Expression, r: Result<Expression, E>| #[trigger] first(x, r) ==> second(x, r),
        fields_transformed(first, fields, result),
    ensures
        fields_transformed(second, fields, result),
    decreases fields,
{
    if fields.len() > 0 {
        let init = choose|init: Result<Seq<RecordField>, E>| #[trigger] witness(init) &&
            fields_transformed(first, fields.drop_last(), init) && (init is Err ==> result ==
            Err::<Seq<RecordField>, E>(init->Err_0)) && (init is Ok ==> exists| x:
            Result<Expression, E>, | #[trigger] witness(x) && expression_transformed(first,
            fields.last().expression, x) && (x is Err ==> result == Err::<Seq<RecordField>,
            E>(x->Err_0)) && (x is Ok ==> result == Ok::<Seq<RecordField>, E>(
            init->Ok_0.push(RecordField { name: fields.last().name, expression: x->Ok_0 }), )));
        lemma_fields_transformed_weaken(first, second, fields.drop_last(), init);
        if init is Ok {
            let x = choose|x: Result<Expression, E>| #[trigger] witness(x) &&
                expression_transformed(first, fields.last().expression, x) && (x is Err ==> result
                == Err::<Seq<RecordField>, E>(x->Err_0)) && (x is Ok ==> result ==
                Ok::<Seq<RecordField>, E>( init->Ok_0.push(RecordField { name: fields.last().name,
                expression: x->Ok_0 }), ));
            lemma_expression_transformed_weaken(first, second, fields.last().expression, x);
            assert(witness(x));
        }
        assert(witness(init));
    }
}


/// A transformation whose every step keeps the expression it is handed,
/// up to its view, keeps every expression: transforming bottom-up rebuilds
/// it unchanged and never fails.
pub proof fn lemma_expression_transformed_keeps<E>(
    step: spec_fn(Expression, Result<Expression, E>) -> bool,
    expression: Expression,
    result: Result<Expression, E>,
)
    requires
        forall|x: Expression, r: Result<Expression, E>|
            #[trigger] step(x, r) ==> r is Ok && r->Ok_0@ == x@,
        expression_transformed(step, expression, result),
    ensures
        result is Ok && result->Ok_0@ == expression@,
    decreases expression,
{
    match expression {
        Expression::Application(a) => {
            let f = choose|f: Result<Expression, E>| #[trigger] witness(f) &&
                expression_transformed(step, *a.function, f) && (f is Err ==> result ==
                Err::<Expression, E>(f->Err_0)) && (f is Ok ==> exists| x: Result<Expression, E>, |
                #[trigger] witness(x) && expression_transformed(step, *a.argument, x) && (x is Err
                ==> result == Err::<Expression, E>(x->Err_0)) && (x is Ok ==> exists| node:
                Expression, | #[trigger] witness(node) && node@ == ExpressionModel::Application(
                Box::new(f->Ok_0@), Box::new(x->Ok_0@), a.source_information, ) && step(node,
                result)));
            lemma_expression_transformed_keeps(step, *a.function, f);
            if f is Ok {
                let x = choose|x: Result<Expression, E>| #[trigger] witness(x) &&
                    expression_transformed(step, *a.argument, x) && (x is Err ==> result ==
                    Err::<Expression, E>(x->Err_0)) && (x is Ok ==> exists| node: Expression, |
                    #[trigger] witness(node) && node@ == ExpressionModel::Application(
                    Box::new(f->Ok_0@), Box::new(x->Ok_0@), a.source_information, ) && step(node,
                    result));
                lemma_expression_transformed_keeps(step, *a.argument, x);
                if x is Ok {
                    let node = choose|node: Expression| #[trigger] witness(node) && node@ ==
                        ExpressionModel::Application( Box::new(f->Ok_0@), Box::new(x->Ok_0@),
                        a.source_information, ) && step(node, result);
                }
            }
        },
        Expression::EqualityOperation(o) => {
            let l = choose|l: Result<Expression, E>| #[trigger] witness(l) &&
                expression_transformed(step, *o.lhs, l) && (l is Err ==> result == Err::<Expression,
                E>(l->Err_0)) && (l is Ok ==> exists|r: Result<Expression, E>| #[trigger] witness(r)
                && expression_transformed(step, *o.rhs, r) && (r is Err ==> result ==
                Err::<Expression, E>(r->Err_0)) && (r is Ok ==> exists| node: Expression, |
                #[trigger] witness(node) && node@ == ExpressionModel::EqualityOperation( o.type_@,
                o.operator, Box::new(l->Ok_0@), Box::new(r->Ok_0@), o.source_information, ) &&
                step(node, result)));
            lemma_expression_transformed_keeps(step, *o.lhs, l);
            if l is Ok {
                let r = choose|r: Result<Expression, E>| #[trigger] witness(r) &&
                    expression_transformed(step, *o.rhs, r) && (r is Err ==> result ==
                    Err::<Expression, E>(r->Err_0)) && (r is Ok ==> exists| node: Expression, |
                    #[trigger] witness(node) && node@ == ExpressionModel::EqualityOperation(
                    o.type_@, o.operator, Box::new(l->Ok_0@), Box::new(r->Ok_0@),
                    o.source_information, ) && step(node, result));
                lemma_expression_transformed_keeps(step, *o.rhs, r);
                if r is Ok {
                    let node = choose|node: Expression| #[trigger] witness(node) && node@ ==
                        ExpressionModel::EqualityOperation( o.type_@, o.operator,
                        Box::new(l->Ok_0@), Box::new(r->Ok_0@), o.source_information, ) &&
                        step(node, result);
                }
            }
        },
        Expression::Let(l) => {
            let d = choose|d: Result<Seq<Definition>, E>| #[trigger] witness(d) &&
                definitions_transformed(step, l.definitions@, d) && (d is Err ==> result ==
                Err::<Expression, E>(d->Err_0)) && (d is Ok ==> exists| x: Result<Expression, E>, |
                #[trigger] witness(x) && expression_transformed(step, *l.expression, x) && (x is Err
                ==> result == Err::<Expression, E>(x->Err_0)) && (x is Ok ==> exists| node:
                Expression, | #[trigger] witness(node) && node@ == ExpressionModel::Let(
                definition_models(d->Ok_0), Box::new(x->Ok_0@), l.source_information, ) &&
                step(node, result)));
            lemma_definitions_transformed_keeps(step, l.definitions@, d);
            if d is Ok {
                let x = choose|x: Result<Expression, E>| #[trigger] witness(x) &&
                    expression_transformed(step, *l.expression, x) && (x is Err ==> result ==
                    Err::<Expression, E>(x->Err_0)) && (x is Ok ==> exists| node: Expression, |
                    #[trigger] witness(node) && node@ == ExpressionModel::Let(
                    definition_models(d->Ok_0), Box::new(x->Ok_0@), l.source_information, ) &&
                    step(node, result));
                lemma_expression_transformed_keeps(step, *l.expression, x);
                if x is Ok {
                    let node = choose|node: Expression| #[trigger] witness(node) && node@ ==
                        ExpressionModel::Let( definition_models(d->Ok_0), Box::new(x->Ok_0@),
                        l.source_information, ) && step(node, result);
                }
            }
        },
        Expression::RecordConstruction(r) => {
            let e = choose|e: Result<Seq<RecordField>, E>| #[trigger] witness(e) &&
                fields_transformed(step, r.elements@, e) && (e is Err ==> result ==
                Err::<Expression, E>(e->Err_0)) && (e is Ok ==> exists|node: Expression| #[trigger]
                witness(node) && node@ == ExpressionModel::RecordConstruction( r.type_@,
                field_models(e->Ok_0), r.source_information, ) && step(node, result));
            lemma_fields_transformed_keeps(step, r.elements@, e);
            if e is Ok {
                let node = choose|node: Expression| #[trigger] witness(node) && node@ ==
                    ExpressionModel::RecordConstruction( r.type_@, field_models(e->Ok_0),
                    r.source_information, ) && step(node, result);
            }
        },
        _ => {},
    }
}

/// The counterpart of [`lemma_expression_transformed_keeps`] for the body
/// of a definition.
pub proof fn lemma_definition_transformed_keeps<E>(
    step: spec_fn(Expression, Result<Expression, E>) -> bool,
    definition: Definition,
    result: Result<Definition, E>,
)
    requires
        forall|x: Expression, r: Result<Expression, E>|
            #[trigger] step(x, r) ==> r is Ok && r->Ok_0@ == x@,
        definition_transformed(step, definition, result),
    ensures
        result is Ok && result->Ok_0@ == definition@,
    decreases definition,
{
    match definition {
        Definition::FunctionDefinition(f) => {
            let b = choose|b: Result<Expression, E>| #[trigger] witness(b) &&
                expression_transformed(step, f.body, b) && (b is Err ==> result == Err::<Definition,
                E>(b->Err_0)) && (b is Ok ==> result is Ok && result->Ok_0@ ==
                DefinitionModel::Function( f.name@, names_model(f.arguments@), b->Ok_0@, f.type_@,
                f.source_information, ));
            lemma_expression_transformed_keeps(step, f.body, b);
        },
        Definition::ValueDefinition(v) => {
            let b = choose|b: Result<Expression, E>| #[trigger] witness(b) &&
                expression_transformed(step, v.body, b) && (b is Err ==> result == Err::<Definition,
                E>(b->Err_0)) && (b is Ok ==> result is Ok && result->Ok_0@ ==
                DefinitionModel::Value(v.name@, b->Ok_0@, v.type_@, v.source_information));
            lemma_expression_transformed_keeps(step, v.body, b);
        },
    }
}

proof fn lemma_definitions_transformed_keeps<E>(
    step: spec_fn(Expression, Result<Expression, E>) -> bool,
    definitions: Seq<Definition>,
    result: Result<Seq<Definition>, E>,
)
    requires
        forall|x: Expression, r: Result<Expression, E>|
            #[trigger] step(x, r) ==> r is Ok && r->Ok_0@ == x@,
        definitions_transformed(step, definitions, result),
    ensures
        result is Ok && definition_models(result->Ok_0) == definition_models(definitions),
    decreases definitions,
{
    if definitions.len() > 0 {
        let init = choose|init: Result<Seq<Definition>, E>| #[trigger] witness(init) &&
            definitions_transformed(step, definitions.drop_last(), init) && (init is Err ==> result
            == Err::<Seq<Definition>, E>(init->Err_0)) && (init is Ok ==> exists|d:
            Result<Definition, E>| #[trigger] witness(d) && definition_transformed(step,
            definitions.last(), d) && ( d is Err ==> result == Err::<Seq<Definition>, E>(d->Err_0))
            && (d is Ok ==> result == Ok::<Seq<Definition>, E>(init->Ok_0.push(d->Ok_0))));
        lemma_definitions_transformed_keeps(step, definitions.drop_last(), init);
        if init is Ok {
            let d = choose|d: Result<Definition, E>| #[trigger] witness(d) &&
                definition_transformed(step, definitions.last(), d) && ( d is Err ==> result ==
                Err::<Seq<Definition>, E>(d->Err_0)) && (d is Ok ==> result == Ok::<Seq<Definition>,
                E>(init->Ok_0.push(d->Ok_0)));
            lemma_definition_transformed_keeps(step, definitions.last(), d);
            lemma_definition_models_push(init->Ok_0, d->Ok_0);
        }
    }
}

proof fn lemma_fields_transformed_keeps<E>(
    step: spec_fn(Expression, Result<Expression, E>) -> bool,
    fields: Seq<RecordField>,
    result: Result<Seq<RecordField>, E>,
)
    requires
        forall|x: Expression, r: Result<Expression, E>|
            #[trigger] step(x, r) ==> r is Ok && r->Ok_0@ == x@,
        fields_transformed(step, fields, result),
    ensures
        result is Ok && field_models(result->Ok_0) == field_models(fields),
    decreases fields,
{
    if fields.len() > 0 {
        let init = choose|init: Result<Seq<RecordField>, E>| #[trigger] witness(init) &&
            fields_transformed(step, fields.drop_last(), init) && (init is Err ==> result ==
            Err::<Seq<RecordField>, E>(init->Err_0)) && (init is Ok ==> exists| x:
            Result<Expression, E>, | #[trigger] witness(x) && expression_transformed(step,
            fields.last().expression, x) && (x is Err ==> result == Err::<Seq<RecordField>,
            E>(x->Err_0)) && (x is Ok ==> result == Ok::<Seq<RecordField>, E>(
            init->Ok_0.push(RecordField { name: fields.last().name, expression: x->Ok_0 }), )));
        lemma_fields_transformed_keeps(step, fields.drop_last(), init);
        if init is Ok {
            let x = choose|x: Result<Expression, E>| #[trigger] witness(x) &&
                expression_transformed(step, fields.last().expression, x) && (x is Err ==> result ==
                Err::<Seq<RecordField>, E>(x->Err_0)) && (x is Ok ==> result ==
                Ok::<Seq<RecordField>, E>( init->Ok_0.push(RecordField { name: fields.last().name,
                expression: x->Ok_0 }), ));
            lemma_expression_transformed_keeps(step, fields.last().expression, x);
            lemma_field_models_push(
                init->Ok_0,
                RecordField { name: fields.last().name, expression: x->Ok_0 },
            );
        }
    }
}

} // verus!

verus! {

/// A type transformation whose every step keeps the type it is handed,
/// up to its view, keeps every type: transforming bottom-up rebuilds it
/// unchanged and never fails.
pub proof fn lemma_type_transformed_keeps<E>(
    step: spec_fn(Type, Result<Type, E>) -> bool,
    type_: Type,
    result: Result<Type, E>,
)
    requires
        forall|x: Type, r: Result<Type, E>| #[trigger] step(x, r) ==> r is Ok && r->Ok_0@ == x@,
        type_transformed(step, type_, result),
    ensures
        result is Ok && result->Ok_0@ == type_@,
    decreases type_,
{
    match type_ {
        Type::Function(argument, to) => {
            let a = choose|a: Result<Type, E>| #[trigger] witness(a) && type_transformed(step,
                *argument, a) && (a is Err ==> result == Err::<Type, E>(a->Err_0)) && (a is Ok ==>
                exists|b: Result<Type, E>| #[trigger] witness(b) && type_transformed(step, *to, b)
                && (b is Err ==> result == Err::<Type, E>(b->Err_0)) && (b is Ok ==> step(
                Type::Function(Box::new(a->Ok_0), Box::new(b->Ok_0)), result, )));
            lemma_type_transformed_keeps(step, *argument, a);
            let b = choose|b: Result<Type, E>| #[trigger] witness(b) && type_transformed(step, *to,
                b) && (b is Err ==> result == Err::<Type, E>(b->Err_0)) && (b is Ok ==> step(
                Type::Function(Box::new(a->Ok_0), Box::new(b->Ok_0)), result, ));
            lemma_type_transformed_keeps(step, *to, b);
        },
        Type::Record(record) => {
            let elements = choose|elements: Result<Seq<RecordElement>, E>| #[trigger]
                witness(elements) && elements_transformed(step, record.elements@, elements) &&
                (elements is Err ==> result == Err::<Type, E>(elements->Err_0)) && (elements is Ok
                ==> exists|vector: Vec<RecordElement>| #[trigger] witness(vector) && vector@ ==
                elements->Ok_0 && step( Type::Record(RecordType { name: record.name, elements:
                vector }), result, ));
            lemma_elements_transformed_keeps(step, record.elements@, elements);
            let vector = choose|vector: Vec<RecordElement>| #[trigger] witness(vector) && vector@ ==
                elements->Ok_0 && step( Type::Record(RecordType { name: record.name, elements:
                vector }), result, );
        },
        _ => {},
    }
}

/// The counterpart of [`lemma_type_transformed_keeps`] for the elements of
/// a record type.
pub proof fn lemma_elements_transformed_keeps<E>(
    step: spec_fn(Type, Result<Type, E>) -> bool,
    elements: Seq<RecordElement>,
    result: Result<Seq<RecordElement>, E>,
)
    requires
        forall|x: Type, r: Result<Type, E>| #[trigger] step(x, r) ==> r is Ok && r->Ok_0@ == x@,
        elements_transformed(step, elements, result),
    ensures
        result is Ok && element_models(result->Ok_0) == element_models(elements),
    decreases elements,
{
    if elements.len() > 0 {
        let init = choose|init: Result<Seq<RecordElement>, E>| #[trigger] witness(init) &&
            elements_transformed(step, elements.drop_last(), init) && ( init is Err ==> result ==
            Err::<Seq<RecordElement>, E>(init->Err_0)) && (init is Ok ==> exists|type_: Result<Type,
            E>| #[trigger] witness(type_) && type_transformed(step, elements.last().type_, type_) &&
            (type_ is Err ==> result == Err::<Seq<RecordElement>, E>(type_->Err_0)) && ( type_ is Ok
            ==> result == Ok::<Seq<RecordElement>, E>( init->Ok_0.push(RecordElement { name:
            elements.last().name, type_: type_->Ok_0 }), )));
        lemma_elements_transformed_keeps(step, elements.drop_last(), init);
        let type_ = choose|type_: Result<Type, E>| #[trigger] witness(type_) &&
            type_transformed(step, elements.last().type_, type_) && (type_ is Err ==> result ==
            Err::<Seq<RecordElement>, E>(type_->Err_0)) && ( type_ is Ok ==> result ==
            Ok::<Seq<RecordElement>, E>( init->Ok_0.push(RecordElement { name: elements.last().name,
            type_: type_->Ok_0 }), ));
        lemma_type_transformed_keeps(step, elements.last().type_, type_);
        assert(init->Ok_0.push(RecordElement { name: elements.last().name, type_: type_->Ok_0
            }).drop_last() =~= init->Ok_0);
    }
}

/// `type_` with every unknown type in it, in the arguments and results of
/// function types and in the elements of record types alike, replaced by
/// `known`.
pub open spec fn unknown_replaced(type_: TypeModel, known: TypeModel) -> TypeModel
    decreases type_,
{
    match type_ {
        TypeModel::Function(argument, result) => TypeModel::Function(
            Box::new(unknown_replaced(*argument, known)),
            Box::new(unknown_replaced(*result, known)),
        ),
        TypeModel::Record(name, elements) => TypeModel::Record(
            name,
            elements_unknown_replaced(elements, known),
        ),
        TypeModel::Unknown(..) => known,
        _ => type_,
    }
}

/// Record elements with every unknown type in them replaced by `known`.
pub open spec fn elements_unknown_replaced(
    elements: Seq<(Seq<char>, TypeModel)>,
    known: TypeModel,
) -> Seq<(Seq<char>, TypeModel)>
    decreases elements,
{
    if elements.len() == 0 {
        seq![]
    } else {
        let last = elements[elements.len() - 1];
        proof {
            assert(decreases_to!(elements => last));
        }
        elements_unknown_replaced(elements.subrange(0, elements.len() - 1), known).push(
            (last.0, unknown_replaced(last.1, known)),
        )
    }
}

/// A type transformation whose every step replaces an unknown type by
/// `known` and keeps any other type replaces every unknown type in a type:
/// in the arguments and the results of function types and in the elements
/// of record types alike.
pub proof fn lemma_type_transformed_replaces_unknown<E>(
    step: spec_fn(Type, Result<Type, E>) -> bool,
    known: TypeModel,
    type_: Type,
    result: Result<Type, E>,
)
    requires
        forall|x: Type, r: Result<Type, E>|
            #[trigger] step(x, r) ==> r is Ok && r->Ok_0@ == (if x is Unknown {
                known
            } else {
                x@
            }),
        type_transformed(step, type_, result),
    ensures
        result is Ok && result->Ok_0@ == unknown_replaced(type_@, known),
    decreases type_,
{
    match type_ {
        Type::Function(argument, to) => {
            let a = choose|a: Result<Type, E>| #[trigger] witness(a) && type_transformed(step,
                *argument, a) && (a is Err ==> result == Err::<Type, E>(a->Err_0)) && (a is Ok ==>
                exists|b: Result<Type, E>| #[trigger] witness(b) && type_transformed(step, *to, b)
                && (b is Err ==> result == Err::<Type, E>(b->Err_0)) && (b is Ok ==> step(
                Type::Function(Box::new(a->Ok_0), Box::new(b->Ok_0)), result, )));
            lemma_type_transformed_replaces_unknown(step, known, *argument, a);
            let b = choose|b: Result<Type, E>| #[trigger] witness(b) && type_transformed(step, *to,
                b) && (b is Err ==> result == Err::<Type, E>(b->Err_0)) && (b is Ok ==> step(
                Type::Function(Box::new(a->Ok_0), Box::new(b->Ok_0)), result, ));
            lemma_type_transformed_replaces_unknown(step, known, *to, b);
        },
        Type::Record(record) => {
            let elements = choose|elements: Result<Seq<RecordElement>, E>| #[trigger]
                witness(elements) && elements_transformed(step, record.elements@, elements) &&
                (elements is Err ==> result == Err::<Type, E>(elements->Err_0)) && (elements is Ok
                ==> exists|vector: Vec<RecordElement>| #[trigger] witness(vector) && vector@ ==
                elements->Ok_0 && step( Type::Record(RecordType { name: record.name, elements:
                vector }), result, ));
            lemma_elements_transformed_replace_unknown(step, known, record.elements@, elements);
            let vector = choose|vector: Vec<RecordElement>| #[trigger] witness(vector) && vector@ ==
                elements->Ok_0 && step( Type::Record(RecordType { name: record.name, elements:
                vector }), result, );
        },
        _ => {},
    }
}

/// The counterpart of [`lemma_type_transformed_replaces_unknown`] for the elements of
/// a record type.
pub proof fn lemma_elements_transformed_replace_unknown<E>(
    step: spec_fn(Type, Result<Type, E>) -> bool,
    known: TypeModel,
    elements: Seq<RecordElement>,
    result: Result<Seq<RecordElement>, E>,
)
    requires
        forall|x: Type, r: Result<Type, E>|
            #[trigger] step(x, r) ==> r is Ok && r->Ok_0@ == (if x is Unknown {
                known
            } else {
                x@
            }),
        elements_transformed(step, elements, result),
    ensures
        result is Ok && element_models(result->Ok_0) == elements_unknown_replaced(
            element_models(elements),
            known,
        ),
    decreases elements,
{
    if elements.len() > 0 {
        let init = choose|init: Result<Seq<RecordElement>, E>| #[trigger] witness(init) &&
            elements_transformed(step, elements.drop_last(), init) && ( init is Err ==> result ==
            Err::<Seq<RecordElement>, E>(init->Err_0)) && (init is Ok ==> exists|type_: Result<Type,
            E>| #[trigger] witness(type_) && type_transformed(step, elements.last().type_, type_) &&
            (type_ is Err ==> result == Err::<Seq<RecordElement>, E>(type_->Err_0)) && ( type_ is Ok
            ==> result == Ok::<Seq<RecordElement>, E>( init->Ok_0.push(RecordElement { name:
            elements.last().name, type_: type_->Ok_0 }), )));
        lemma_elements_transformed_replace_unknown(step, known, elements.drop_last(), init);
        let type_ = choose|type_: Result<Type, E>| #[trigger] witness(type_) &&
            type_transformed(step, elements.last().type_, type_) && (type_ is Err ==> result ==
            Err::<Seq<RecordElement>, E>(type_->Err_0)) && ( type_ is Ok ==> result ==
            Ok::<Seq<RecordElement>, E>( init->Ok_0.push(RecordElement { name: elements.last().name,
            type_: type_->Ok_0 }), ));
        lemma_type_transformed_replaces_unknown(step, known, elements.last().type_, type_);
        let models = element_models(elements);
        let init_models = element_models(elements.drop_last());
        assert(models == init_models.push(
            (elements.last().name@, type_model(elements.last().type_)),
        ));
        assert(models.subrange(0, models.len() - 1) =~= init_models);
        assert(init->Ok_0.push(RecordElement { name: elements.last().name, type_: type_->Ok_0
            }).drop_last() =~= init->Ok_0);
    }
}

/// The counterpart of [`lemma_type_transformed_keeps`] for the types in an
/// expression: a type transformation that keeps every type keeps every
/// expression.
pub proof fn lemma_expression_types_transformed_keeps<E>(
    step: spec_fn(Type, Result<Type, E>) -> bool,
    expression: Expression,
    result: Result<Expression, E>,
)
    requires
        forall|x: Type, r: Result<Type, E>| #[trigger] step(x, r) ==> r is Ok && r->Ok_0@ == x@,
        expression_types_transformed(step, expression, result),
    ensures
        result is Ok && result->Ok_0@ == expression@,
    decreases expression,
{
    match expression {
        Expression::Application(a) => {
            let f = choose|f: Result<Expression, E>| #[trigger] witness(f) &&
                expression_types_transformed(step, *a.function, f) && (f is Err ==> result ==
                Err::<Expression, E>(f->Err_0)) && (f is Ok ==> exists| x: Result<Expression, E>, |
                #[trigger] witness(x) && expression_types_transformed(step, *a.argument, x) && ( x
                is Err ==> result == Err::<Expression, E>(x->Err_0)) && (x is Ok ==> result is Ok &&
                result->Ok_0@ == ExpressionModel::Application( Box::new(f->Ok_0@),
                Box::new(x->Ok_0@), a.source_information, )));
            lemma_expression_types_transformed_keeps(step, *a.function, f);
            let x = choose|x: Result<Expression, E>| #[trigger] witness(x) &&
                expression_types_transformed(step, *a.argument, x) && ( x is Err ==> result ==
                Err::<Expression, E>(x->Err_0)) && (x is Ok ==> result is Ok && result->Ok_0@ ==
                ExpressionModel::Application( Box::new(f->Ok_0@), Box::new(x->Ok_0@),
                a.source_information, ));
            lemma_expression_types_transformed_keeps(step, *a.argument, x);
        },
        Expression::EqualityOperation(o) => {
            let t = choose|t: Result<Type, E>| #[trigger] witness(t) && type_transformed(step,
                o.type_, t) && (t is Err ==> result == Err::<Expression, E>(t->Err_0)) && (t is Ok
                ==> exists|l: Result<Expression, E>| #[trigger] witness(l) &&
                expression_types_transformed(step, *o.lhs, l) && (l is Err ==> result ==
                Err::<Expression, E>(l->Err_0)) && (l is Ok ==> exists| r: Result<Expression, E>, |
                #[trigger] witness(r) && expression_types_transformed(step, *o.rhs, r) && ( r is Err
                ==> result == Err::<Expression, E>(r->Err_0)) && (r is Ok ==> result is Ok &&
                result->Ok_0@ == ExpressionModel::EqualityOperation( t->Ok_0@, o.operator,
                Box::new(l->Ok_0@), Box::new(r->Ok_0@), o.source_information, ))));
            lemma_type_transformed_keeps(step, o.type_, t);
            let l = choose|l: Result<Expression, E>| #[trigger] witness(l) &&
                expression_types_transformed(step, *o.lhs, l) && (l is Err ==> result ==
                Err::<Expression, E>(l->Err_0)) && (l is Ok ==> exists| r: Result<Expression, E>, |
                #[trigger] witness(r) && expression_types_transformed(step, *o.rhs, r) && ( r is Err
                ==> result == Err::<Expression, E>(r->Err_0)) && (r is Ok ==> result is Ok &&
                result->Ok_0@ == ExpressionModel::EqualityOperation( t->Ok_0@, o.operator,
                Box::new(l->Ok_0@), Box::new(r->Ok_0@), o.source_information, )));
            lemma_expression_types_transformed_keeps(step, *o.lhs, l);
            let r = choose|r: Result<Expression, E>| #[trigger] witness(r) &&
                expression_types_transformed(step, *o.rhs, r) && ( r is Err ==> result ==
                Err::<Expression, E>(r->Err_0)) && (r is Ok ==> result is Ok && result->Ok_0@ ==
                ExpressionModel::EqualityOperation( t->Ok_0@, o.operator, Box::new(l->Ok_0@),
                Box::new(r->Ok_0@), o.source_information, ));
            lemma_expression_types_transformed_keeps(step, *o.rhs, r);
        },
        Expression::Let(l) => {
            let d = choose|d: Result<Seq<Definition>, E>| #[trigger] witness(d) &&
                definitions_types_transformed(step, l.definitions@, d) && ( d is Err ==> result ==
                Err::<Expression, E>(d->Err_0)) && (d is Ok ==> exists| x: Result<Expression, E>, |
                #[trigger] witness(x) && expression_types_transformed(step, *l.expression, x) && ( x
                is Err ==> result == Err::<Expression, E>(x->Err_0)) && (x is Ok ==> result is Ok &&
                result->Ok_0@ == ExpressionModel::Let( definition_models(d->Ok_0),
                Box::new(x->Ok_0@), l.source_information, )));
            lemma_definitions_types_transformed_keeps(step, l.definitions@, d);
            let x = choose|x: Result<Expression, E>| #[trigger] witness(x) &&
                expression_types_transformed(step, *l.expression, x) && ( x is Err ==> result ==
                Err::<Expression, E>(x->Err_0)) && (x is Ok ==> result is Ok && result->Ok_0@ ==
                ExpressionModel::Let( definition_models(d->Ok_0), Box::new(x->Ok_0@),
                l.source_information, ));
            lemma_expression_types_transformed_keeps(step, *l.expression, x);
        },
        Expression::RecordConstruction(r) => {
            let t = choose|t: Result<Type, E>| #[trigger] witness(t) && type_transformed(step,
                r.type_, t) && (t is Err ==> result == Err::<Expression, E>(t->Err_0)) && (t is Ok
                ==> exists| e: Result<Seq<RecordField>, E>, | #[trigger] witness(e) &&
                fields_types_transformed(step, r.elements@, e) && (e is Err ==> result ==
                Err::<Expression, E>(e->Err_0)) && (e is Ok ==> result is Ok && result->Ok_0@ ==
                ExpressionModel::RecordConstruction( t->Ok_0@, field_models(e->Ok_0),
                r.source_information, )));
            lemma_type_transformed_keeps(step, r.type_, t);
            let e = choose|e: Result<Seq<RecordField>, E>| #[trigger] witness(e) &&
                fields_types_transformed(step, r.elements@, e) && (e is Err ==> result ==
                Err::<Expression, E>(e->Err_0)) && (e is Ok ==> result is Ok && result->Ok_0@ ==
                ExpressionModel::RecordConstruction( t->Ok_0@, field_models(e->Ok_0),
                r.source_information, ));
            lemma_fields_types_transformed_keeps(step, r.elements@, e);
        },
        _ => {},
    }
}

/// The counterpart of [`lemma_expression_types_transformed_keeps`] for a
/// definition.
pub proof fn lemma_definition_types_transformed_keeps<E>(
    step: spec_fn(Type, Result<Type, E>) -> bool,
    definition: Definition,
    result: Result<Definition, E>,
)
    requires
        forall|x: Type, r: Result<Type, E>| #[trigger] step(x, r) ==> r is Ok && r->Ok_0@ == x@,
        definition_types_transformed(step, definition, result),
    ensures
        result is Ok && result->Ok_0@ == definition@,
    decreases definition,
{
    match definition {
        Definition::FunctionDefinition(f) => {
            let t = choose|t: Result<Type, E>| #[trigger] witness(t) && type_transformed(step,
                f.type_, t) && (t is Err ==> result == Err::<Definition, E>(t->Err_0)) && (t is Ok
                ==> exists|b: Result<Expression, E>| #[trigger] witness(b) &&
                expression_types_transformed(step, f.body, b) && (b is Err ==> result ==
                Err::<Definition, E>(b->Err_0)) && (b is Ok ==> result is Ok && result->Ok_0@ ==
                DefinitionModel::Function( f.name@, names_model(f.arguments@), b->Ok_0@, t->Ok_0@,
                f.source_information, )));
            lemma_type_transformed_keeps(step, f.type_, t);
            let b = choose|b: Result<Expression, E>| #[trigger] witness(b) &&
                expression_types_transformed(step, f.body, b) && (b is Err ==> result ==
                Err::<Definition, E>(b->Err_0)) && (b is Ok ==> result is Ok && result->Ok_0@ ==
                DefinitionModel::Function( f.name@, names_model(f.arguments@), b->Ok_0@, t->Ok_0@,
                f.source_information, ));
            lemma_expression_types_transformed_keeps(step, f.body, b);
        },
        Definition::ValueDefinition(v) => {
            let t = choose|t: Result<Type, E>| #[trigger] witness(t) && type_transformed(step,
                v.type_, t) && (t is Err ==> result == Err::<Definition, E>(t->Err_0)) && (t is Ok
                ==> exists|b: Result<Expression, E>| #[trigger] witness(b) &&
                expression_types_transformed(step, v.body, b) && (b is Err ==> result ==
                Err::<Definition, E>(b->Err_0)) && (b is Ok ==> result is Ok && result->Ok_0@ ==
                DefinitionModel::Value( v.name@, b->Ok_0@, t->Ok_0@, v.source_information, )));
            lemma_type_transformed_keeps(step, v.type_, t);
            let b = choose|b: Result<Expression, E>| #[trigger] witness(b) &&
                expression_types_transformed(step, v.body, b) && (b is Err ==> result ==
                Err::<Definition, E>(b->Err_0)) && (b is Ok ==> result is Ok && result->Ok_0@ ==
                DefinitionModel::Value( v.name@, b->Ok_0@, t->Ok_0@, v.source_information, ));
            lemma_expression_types_transformed_keeps(step, v.body, b);
        },
    }
}

proof fn lemma_definitions_types_transformed_keeps<E>(
    step: spec_fn(Type, Result<Type, E>) -> bool,
    definitions: Seq<Definition>,
    result: Result<Seq<Definition>, E>,
)
    requires
        forall|x: Type, r: Result<Type, E>| #[trigger] step(x, r) ==> r is Ok && r->Ok_0@ == x@,
        definitions_types_transformed(step, definitions, result),
    ensures
        result is Ok && definition_models(result->Ok_0) == definition_models(definitions),
    decreases definitions,
{
    if definitions.len() > 0 {
        let init = choose|init: Result<Seq<Definition>, E>| #[trigger] witness(init) &&
            definitions_types_transformed( step, definitions.drop_last(), init, ) && (init is Err
            ==> result == Err::<Seq<Definition>, E>(init->Err_0)) && (init is Ok ==> exists|d:
            Result<Definition, E>| #[trigger] witness(d) && definition_types_transformed(step,
            definitions.last(), d) && (d is Err ==> result == Err::<Seq<Definition>, E>(d->Err_0))
            && (d is Ok ==> result == Ok::<Seq<Definition>, E>(init->Ok_0.push(d->Ok_0))));
        lemma_definitions_types_transformed_keeps(step, definitions.drop_last(), init);
        let d = choose|d: Result<Definition, E>| #[trigger] witness(d) &&
            definition_types_transformed(step, definitions.last(), d) && (d is Err ==> result ==
            Err::<Seq<Definition>, E>(d->Err_0)) && (d is Ok ==> result == Ok::<Seq<Definition>,
            E>(init->Ok_0.push(d->Ok_0)));
        lemma_definition_types_transformed_keeps(step, definitions.last(), d);
        lemma_definition_models_push(init->Ok_0, d->Ok_0);
    }
}

proof fn lemma_fields_types_transformed_keeps<E>(
    step: spec_fn(Type, Result<Type, E>) -> bool,
    fields: Seq<RecordField>,
    result: Result<Seq<RecordField>, E>,
)
    requires
        forall|x: Type, r: Result<Type, E>| #[trigger] step(x, r) ==> r is Ok && r->Ok_0@ == x@,
        fields_types_transformed(step, fields, result),
    ensures
        result is Ok && field_models(result->Ok_0) == field_models(fields),
    decreases fields,
{
    if fields.len() > 0 {
        let init = choose|init: Result<Seq<RecordField>, E>| #[trigger] witness(init) &&
            fields_types_transformed(step, fields.drop_last(), init) && ( init is Err ==> result ==
            Err::<Seq<RecordField>, E>(init->Err_0)) && (init is Ok ==> exists|x: Result<Expression,
            E>| #[trigger] witness(x) && expression_types_transformed( step,
            fields.last().expression, x, ) && (x is Err ==> result == Err::<Seq<RecordField>,
            E>(x->Err_0)) && (x is Ok ==> result == Ok::<Seq<RecordField>, E>(
            init->Ok_0.push(RecordField { name: fields.last().name, expression: x->Ok_0 }), )));
        lemma_fields_types_transformed_keeps(step, fields.drop_last(), init);
        let x = choose|x: Result<Expression, E>| #[trigger] witness(x) &&
            expression_types_transformed( step, fields.last().expression, x, ) && (x is Err ==>
            result == Err::<Seq<RecordField>, E>(x->Err_0)) && (x is Ok ==> result ==
            Ok::<Seq<RecordField>, E>( init->Ok_0.push(RecordField { name: fields.last().name,
            expression: x->Ok_0 }), ));
        lemma_expression_types_transformed_keeps(step, fields.last().expression, x);
        lemma_field_models_push(
            init->Ok_0,
            RecordField { name: fields.last().name, expression: x->Ok_0 },
        );
    }
}

} // verus!
