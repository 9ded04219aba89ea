use sloth::ein::name_generator::NameGenerator;
use sloth::ein::types::{
    same_type, CompileError, ExpressionTypeExtractor, ReferenceTypeResolver, TypeEqualityChecker,
};
use sloth::items::TypeDefinition;
use sloth::lang::environment::TypeEnvironment;
use sloth::syntax::{
    Application, Definition, Expression, Let, RecordConstruction, RecordElement, RecordType,
    SourceInformation, Type, ValueDefinition, Variable,
};
use sloth::Location;
use std::rc::Rc;

fn info() -> SourceInformation {
    SourceInformation::new("test", Location::new(1, 1))
}

fn reference(name: &str) -> Type {
    Type::Reference(name.to_string())
}

fn function(argument: Type, result: Type) -> Type {
    Type::Function(Box::new(argument), Box::new(result))
}

fn variable(name: &str) -> Expression {
    Expression::Variable(Variable { name: name.to_string(), source_information: info() })
}

fn resolver(definitions: Vec<(&str, Type)>) -> ReferenceTypeResolver {
    ReferenceTypeResolver::new(
        definitions.into_iter().map(|(name, type_)| TypeDefinition::new(name, type_)).collect(),
    )
}

#[test]
fn resolve_follows_references_to_a_type() {
    let resolver = resolver(vec![("a", reference("b")), ("b", Type::Number)]);
    assert!(matches!(resolver.resolve(&reference("a")), Ok(Type::Number)));
}

#[test]
fn resolve_keeps_types_that_are_not_references() {
    let resolver = resolver(vec![]);
    assert!(matches!(resolver.resolve(&Type::Boolean), Ok(Type::Boolean)));
    assert!(matches!(
        resolver.resolve(&function(Type::Number, reference("x"))),
        Ok(Type::Function(_, _))
    ));
}

#[test]
fn resolve_reports_a_missing_definition() {
    let resolver = resolver(vec![("a", reference("z"))]);
    match resolver.resolve(&reference("a")) {
        Err(CompileError::TypeNotFound(name)) => assert_eq!(name, "z"),
        other => panic!("unexpected {:?}", other),
    }
}

#[test]
fn resolve_reports_a_reference_cycle() {
    let resolver = resolver(vec![("a", reference("b")), ("b", reference("a"))]);
    assert!(matches!(
        resolver.resolve_reference(&reference("a")),
        Err(CompileError::TypeReferenceCycle(_))
    ));
}

#[test]
fn first_definition_of_a_name_is_used() {
    let resolver = resolver(vec![("a", Type::Number), ("a", Type::Boolean)]);
    assert!(matches!(resolver.resolve(&reference("a")), Ok(Type::Number)));
}

#[test]
fn equality_compares_resolved_types() {
    let resolver = Rc::new(resolver(vec![("a", Type::Number), ("f", function(Type::Number, Type::Number))]));
    let checker = TypeEqualityChecker::new(resolver);
    assert!(matches!(checker.equal(&reference("a"), &Type::Number), Ok(true)));
    assert!(matches!(checker.equal(&Type::Number, &Type::Boolean), Ok(false)));
    assert!(matches!(
        checker.equal(&reference("f"), &function(Type::Number, Type::Number)),
        Ok(true)
    ));
    assert!(matches!(
        checker.equal(&reference("f"), &function(Type::Number, Type::Boolean)),
        Ok(false)
    ));
    assert!(matches!(
        checker.equal(&reference("missing"), &reference("a")),
        Err(CompileError::TypeNotFound(_))
    ));
}

#[test]
fn same_type_compares_structure() {
    assert!(same_type(&function(Type::Number, Type::Boolean), &function(Type::Number, Type::Boolean)));
    assert!(!same_type(&reference("a"), &reference("b")));
    let record = |element: &str| {
        Type::Record(RecordType {
            name: "r".to_string(),
            elements: vec![RecordElement { name: element.to_string(), type_: Type::Number }],
        })
    };
    assert!(same_type(&record("x"), &record("x")));
    assert!(!same_type(&record("x"), &record("y")));
}

#[test]
fn record_type_finds_element_types() {
    let record = RecordType {
        name: "r".to_string(),
        elements: vec![
            RecordElement { name: "x".to_string(), type_: Type::Number },
            RecordElement { name: "y".to_string(), type_: Type::Boolean },
        ],
    };
    assert!(matches!(record.element_type(&"y".to_string()), Some(Type::Boolean)));
    assert!(record.element_type(&"z".to_string()).is_none());
}

#[test]
fn extractor_gives_literal_and_variable_types() {
    let extractor = ExpressionTypeExtractor::new(Rc::new(resolver(vec![])));
    let mut variables = TypeEnvironment::new();
    variables.insert("x", Type::Boolean);
    assert!(matches!(extractor.extract(&Expression::Number(0, info()), &variables), Ok(Type::Number)));
    assert!(matches!(
        extractor.extract(&Expression::NoneLiteral(info()), &variables),
        Ok(Type::NoneType)
    ));
    assert!(matches!(extractor.extract(&variable("x"), &variables), Ok(Type::Boolean)));
    match extractor.extract(&variable("y"), &variables) {
        Err(CompileError::VariableNotFound(name)) => assert_eq!(name, "y"),
        other => panic!("unexpected {:?}", other),
    }
}

#[test]
fn extractor_gives_result_type_of_application() {
    let extractor =
        ExpressionTypeExtractor::new(Rc::new(resolver(vec![("g", function(Type::Number, Type::Boolean))])));
    let mut variables = TypeEnvironment::new();
    variables.insert("f", reference("g"));
    variables.insert("n", Type::Number);
    let application = |function_name: &str| {
        Expression::Application(Application {
            function: Box::new(variable(function_name)),
            argument: Box::new(Expression::Number(0, info())),
            source_information: info(),
        })
    };
    assert!(matches!(extractor.extract(&application("f"), &variables), Ok(Type::Boolean)));
    assert!(matches!(
        extractor.extract(&application("n"), &variables),
        Err(CompileError::FunctionExpected)
    ));
}

#[test]
fn extractor_sees_let_definitions_over_outer_variables() {
    let extractor = ExpressionTypeExtractor::new(Rc::new(resolver(vec![])));
    let mut variables = TypeEnvironment::new();
    variables.insert("x", Type::Boolean);
    let expression = Expression::Let(Let {
        definitions: vec![Definition::ValueDefinition(ValueDefinition {
            name: "x".to_string(),
            body: Expression::Number(0, info()),
            type_: Type::Number,
            source_information: info(),
        })],
        expression: Box::new(variable("x")),
        source_information: info(),
    });
    assert!(matches!(extractor.extract(&expression, &variables), Ok(Type::Number)));
    // The let's definitions do not leak out of it.
    assert!(matches!(extractor.extract(&variable("x"), &variables), Ok(Type::Boolean)));
}

#[test]
fn extractor_gives_record_construction_its_type() {
    let extractor = ExpressionTypeExtractor::new(Rc::new(resolver(vec![])));
    let expression = Expression::RecordConstruction(RecordConstruction {
        type_: reference("r"),
        elements: vec![],
        source_information: info(),
    });
    match extractor.extract(&expression, &TypeEnvironment::new()) {
        Ok(Type::Reference(name)) => assert_eq!(name, "r"),
        other => panic!("unexpected {:?}", other),
    }
}

#[test]
fn name_generator_counts_in_decimal() {
    let mut generator = NameGenerator::new("p_");
    let mut names = Vec::new();
    for _ in 0..12 {
        names.push(generator.generate());
    }
    assert_eq!(names[0], "p_0");
    assert_eq!(names[1], "p_1");
    assert_eq!(names[9], "p_9");
    assert_eq!(names[10], "p_10");
    assert_eq!(names[11], "p_11");
    for i in 0..names.len() {
        for j in 0..i {
            assert_ne!(names[i], names[j]);
        }
    }
}
