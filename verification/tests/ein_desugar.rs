use sloth::ein::desugar::FunctionTypeArgumentDesugarer;
use sloth::ein::types::{
    CompileError, ExpressionTypeExtractor, ReferenceTypeResolver, TypeEqualityChecker,
};
use sloth::items::TypeDefinition;
use sloth::lang::environment::TypeEnvironment;
use sloth::syntax::{
    Application, Definition, Expression, FunctionDefinition, ValueDefinition, RecordConstruction, RecordElement, RecordField,
    RecordType, SourceInformation, Type, Variable,
};
use sloth::Location;
use std::rc::Rc;

fn info() -> SourceInformation {
    SourceInformation::new("test", Location::new(2, 3))
}

fn function(argument: Type, result: Type) -> Type {
    Type::Function(Box::new(argument), Box::new(result))
}

fn number_to_number() -> Type {
    function(Type::Number, Type::Number)
}

fn variable(name: &str) -> Expression {
    Expression::Variable(Variable { name: name.to_string(), source_information: info() })
}

fn apply(function: Expression, argument: Expression) -> Expression {
    Expression::Application(Application {
        function: Box::new(function),
        argument: Box::new(argument),
        source_information: info(),
    })
}

fn desugarer(definitions: Vec<TypeDefinition>) -> FunctionTypeArgumentDesugarer {
    let resolver = Rc::new(ReferenceTypeResolver::new(definitions));
    FunctionTypeArgumentDesugarer::new(
        resolver.clone(),
        Rc::new(TypeEqualityChecker::new(resolver.clone())),
        Rc::new(ExpressionTypeExtractor::new(resolver)),
    )
}

/// The name bound by a desugared argument, and the expression it is bound to.
fn bound(expression: &Expression) -> (String, &Expression) {
    match expression {
        Expression::Let(l) => {
            assert_eq!(l.definitions.len(), 1);
            let name = match &l.definitions[0] {
                Definition::ValueDefinition(v) => {
                    assert!(matches!(v.type_, Type::Function(_, _)));
                    v.name.clone()
                }
                _ => panic!("not a value definition"),
            };
            match &*l.expression {
                Expression::Variable(v) => assert_eq!(v.name, name),
                _ => panic!("not a variable"),
            }
            match &l.definitions[0] {
                Definition::ValueDefinition(v) => (name, &v.body),
                _ => unreachable!(),
            }
        }
        _ => panic!("not a let"),
    }
}

fn variables() -> TypeEnvironment {
    let mut variables = TypeEnvironment::new();
    variables.insert("f", number_to_number());
    variables.insert("g", function(number_to_number(), Type::Number));
    variables.insert("h", function(Type::Number, number_to_number()));
    variables.insert("n", Type::Number);
    variables.insert("b", function(Type::Boolean, Type::Number));
    variables
}

#[test]
fn argument_of_a_type_that_is_not_a_function_is_kept() {
    let mut desugarer = desugarer(vec![]);
    let result = desugarer
        .desugar_function_type_argument(&variable("n"), &Type::Number, &info(), &variables())
        .unwrap();
    assert!(matches!(result, Expression::Variable(ref v) if v.name == "n"));
}

#[test]
fn variable_of_the_expected_function_type_is_kept() {
    let mut desugarer = desugarer(vec![TypeDefinition::new("t", number_to_number())]);
    let result = desugarer
        .desugar_function_type_argument(
            &variable("f"),
            &Type::Reference("t".to_string()),
            &info(),
            &variables(),
        )
        .unwrap();
    assert!(matches!(result, Expression::Variable(ref v) if v.name == "f"));
}

#[test]
fn variable_of_another_function_type_is_bound() {
    let mut desugarer = desugarer(vec![]);
    let result = desugarer
        .desugar_function_type_argument(&variable("b"), &number_to_number(), &info(), &variables())
        .unwrap();
    let (name, body) = bound(&result);
    assert_eq!(name, "fta_function_0");
    assert!(matches!(body, Expression::Variable(v) if v.name == "b"));
}

#[test]
fn expression_that_is_not_a_variable_is_bound_with_fresh_names() {
    let mut desugarer = desugarer(vec![]);
    let argument = apply(variable("h"), Expression::Number(0, info()));
    let first = desugarer
        .desugar_function_type_argument(&argument, &number_to_number(), &info(), &variables())
        .unwrap();
    let second = desugarer
        .desugar_function_type_argument(&argument, &number_to_number(), &info(), &variables())
        .unwrap();
    assert_eq!(bound(&first).0, "fta_function_0");
    assert_eq!(bound(&second).0, "fta_function_1");
    assert!(matches!(bound(&first).1, Expression::Application(_)));
}

#[test]
fn errors_of_type_extraction_are_returned() {
    let mut desugarer = desugarer(vec![]);
    match desugarer.desugar_function_type_argument(
        &variable("missing"),
        &number_to_number(),
        &info(),
        &variables(),
    ) {
        Err(CompileError::VariableNotFound(name)) => assert_eq!(name, "missing"),
        other => panic!("unexpected {:?}", other),
    }
    match desugarer.desugar_function_type_argument(
        &variable("f"),
        &Type::Reference("undefined".to_string()),
        &info(),
        &variables(),
    ) {
        Err(CompileError::TypeNotFound(name)) => assert_eq!(name, "undefined"),
        other => panic!("unexpected {:?}", other),
    }
}

#[test]
fn application_argument_is_desugared_against_argument_type() {
    let mut desugarer = desugarer(vec![]);
    // g expects a function from numbers to numbers; h 0 is one but is no variable.
    let expression = apply(variable("g"), apply(variable("h"), Expression::Number(0, info())));
    match desugarer.desugar_expression(&expression, &variables()).unwrap() {
        Expression::Application(a) => {
            assert!(matches!(&*a.function, Expression::Variable(v) if v.name == "g"));
            assert_eq!(bound(&a.argument).0, "fta_function_0");
        }
        other => panic!("unexpected {:?}", other),
    }
}

#[test]
fn application_with_variable_argument_of_right_type_is_kept() {
    let mut desugarer = desugarer(vec![]);
    let expression = apply(variable("g"), variable("f"));
    match desugarer.desugar_expression(&expression, &variables()).unwrap() {
        Expression::Application(a) => {
            assert!(matches!(&*a.argument, Expression::Variable(v) if v.name == "f"));
        }
        other => panic!("unexpected {:?}", other),
    }
    // No name was taken: the next one is still the first.
    let next = desugarer
        .desugar_function_type_argument(&variable("b"), &number_to_number(), &info(), &variables())
        .unwrap();
    assert_eq!(bound(&next).0, "fta_function_0");
}

#[test]
fn record_elements_are_desugared_against_element_types() {
    let record_type = Type::Record(RecordType {
        name: "r".to_string(),
        elements: vec![
            RecordElement { name: "x".to_string(), type_: Type::Number },
            RecordElement { name: "k".to_string(), type_: number_to_number() },
        ],
    });
    let mut desugarer = desugarer(vec![TypeDefinition::new("r", record_type)]);
    let expression = Expression::RecordConstruction(RecordConstruction {
        type_: Type::Reference("r".to_string()),
        elements: vec![
            RecordField { name: "k".to_string(), expression: variable("b") },
            RecordField { name: "x".to_string(), expression: variable("n") },
        ],
        source_information: info(),
    });
    match desugarer.desugar_expression(&expression, &variables()).unwrap() {
        Expression::RecordConstruction(r) => {
            assert!(matches!(&r.type_, Type::Reference(name) if name == "r"));
            assert_eq!(r.elements.len(), 2);
            assert_eq!(r.elements[0].name, "k");
            assert_eq!(bound(&r.elements[0].expression).0, "fta_function_0");
            assert_eq!(r.elements[1].name, "x");
            assert!(matches!(&r.elements[1].expression, Expression::Variable(v) if v.name == "n"));
        }
        other => panic!("unexpected {:?}", other),
    }
}

#[test]
fn record_construction_of_an_undefined_type_fails() {
    let mut desugarer = desugarer(vec![]);
    let expression = Expression::RecordConstruction(RecordConstruction {
        type_: Type::Reference("r".to_string()),
        elements: vec![],
        source_information: info(),
    });
    assert!(matches!(
        desugarer.desugar_expression(&expression, &variables()),
        Err(CompileError::TypeNotFound(_))
    ));
}

#[test]
fn other_expressions_are_kept() {
    let mut desugarer = desugarer(vec![]);
    assert!(matches!(
        desugarer.desugar_expression(&Expression::Boolean(true, info()), &variables()),
        Ok(Expression::Boolean(true, _))
    ));
    assert!(matches!(
        desugarer.desugar_expression(&variable("f"), &variables()),
        Ok(Expression::Variable(_))
    ));
}

#[test]
fn definitions_are_kept_by_their_own_hooks() {
    let mut desugarer = desugarer(vec![]);
    let function = FunctionDefinition {
        name: "f".to_string(),
        arguments: vec!["a".to_string()],
        body: variable("a"),
        type_: number_to_number(),
        source_information: info(),
    };
    let kept = desugarer.desugar_function_definition(&function, &variables()).unwrap();
    assert_eq!(kept.name, "f");
    assert_eq!(kept.arguments, vec!["a".to_string()]);
    assert!(matches!(&kept.body, Expression::Variable(v) if v.name == "a"));
    let value = ValueDefinition {
        name: "x".to_string(),
        body: Expression::Number(3, info()),
        type_: Type::Number,
        source_information: info(),
    };
    let kept = desugarer.desugar_value_definition(&value, &variables()).unwrap();
    assert_eq!(kept.name, "x");
    assert!(matches!(kept.body, Expression::Number(3, _)));
    // The hooks take no names.
    let next = desugarer
        .desugar_function_type_argument(&variable("b"), &number_to_number(), &info(), &variables())
        .unwrap();
    assert_eq!(bound(&next).0, "fta_function_0");
}
