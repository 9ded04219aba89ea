use sloth::ein::module::Module as EinModule;
use sloth::items::{
    CallingConvention, Export, ExportForeign, FfiPackageInterface, Import, ImportForeign,
    ModuleInterface, ModulePath, Package, TypeDefinition, TypedName,
};
use sloth::lang::environment::{ModuleEnvironmentCreator, TypeEnvironment};
use sloth::lang::module::Module;
use sloth::syntax::{
    Application, Definition, EqualityOperation, EqualityOperator, Expression, FunctionDefinition,
    Let, SourceInformation, Type, ValueDefinition, Variable,
};
use sloth::Location;

fn info() -> SourceInformation {
    SourceInformation::new("module.sl", Location::new(4, 2))
}

fn variable(name: &str) -> Expression {
    Expression::Variable(Variable { name: name.to_string(), source_information: info() })
}

fn value(name: &str, body: Expression, type_: Type) -> Definition {
    Definition::ValueDefinition(ValueDefinition {
        name: name.to_string(),
        body,
        type_,
        source_information: info(),
    })
}

fn function(name: &str, body: Expression, type_: Type) -> Definition {
    Definition::FunctionDefinition(FunctionDefinition {
        name: name.to_string(),
        arguments: vec!["a".to_string()],
        body,
        type_,
        source_information: info(),
    })
}

fn number_to_number() -> Type {
    Type::Function(Box::new(Type::Number), Box::new(Type::Number))
}

fn import(names: &[(&str, Type)]) -> Import {
    Import::new(ModuleInterface::new(
        ModulePath::new(Package::new("dependency", "1.0"), vec!["m".to_string()]),
        names.iter().map(|(name, type_)| TypedName::new(name, type_.clone())).collect(),
    ))
}

fn module_with(
    imports: Vec<Import>,
    import_foreigns: Vec<ImportForeign>,
    definitions: Vec<Definition>,
) -> Module {
    Module::new(
        ModulePath::new(Package::new("p", "0.1"), vec!["main".to_string()]),
        Export::new(vec!["f".to_string()]),
        ExportForeign::new(vec![]),
        imports,
        import_foreigns,
        vec![],
        definitions,
    )
}

fn is_type(environment: &TypeEnvironment, name: &str, expected: fn(&Type) -> bool) -> bool {
    environment.get(name).map(expected).unwrap_or(false)
}

#[test]
fn environment_holds_imports_foreign_imports_and_definitions() {
    let module = module_with(
        vec![import(&[("i", Type::Boolean)])],
        vec![ImportForeign::new("c", "c_function", CallingConvention::C, number_to_number(), info())],
        vec![value("x", Expression::Number(0, info()), Type::Number)],
    );
    let environment = ModuleEnvironmentCreator::new().create(&module);
    assert!(is_type(&environment, "i", |t| matches!(t, Type::Boolean)));
    assert!(is_type(&environment, "c", |t| matches!(t, Type::Function(_, _))));
    assert!(is_type(&environment, "x", |t| matches!(t, Type::Number)));
    assert!(!environment.contains("y"));
}

#[test]
fn definitions_shadow_foreign_imports_which_shadow_imports() {
    let module = module_with(
        vec![import(&[("a", Type::Boolean), ("b", Type::Boolean)])],
        vec![
            ImportForeign::new("a", "a", CallingConvention::Native, Type::NoneType, info()),
            ImportForeign::new("c", "c", CallingConvention::Native, Type::NoneType, info()),
        ],
        vec![
            value("c", Expression::Number(0, info()), Type::Number),
            function("d", variable("a"), number_to_number()),
        ],
    );
    let environment = ModuleEnvironmentCreator::new().create(&module);
    assert!(is_type(&environment, "a", |t| matches!(t, Type::NoneType)));
    assert!(is_type(&environment, "b", |t| matches!(t, Type::Boolean)));
    assert!(is_type(&environment, "c", |t| matches!(t, Type::Number)));
    assert!(is_type(&environment, "d", |t| matches!(t, Type::Function(_, _))));
}

#[test]
fn later_imports_replace_earlier_ones() {
    let module = module_with(
        vec![import(&[("a", Type::Boolean)]), import(&[("a", Type::Number)])],
        vec![],
        vec![],
    );
    let environment = ModuleEnvironmentCreator::new().create(&module);
    assert!(is_type(&environment, "a", |t| matches!(t, Type::Number)));
}

#[test]
fn type_environment_insert_replaces() {
    let mut environment = TypeEnvironment::new();
    assert!(!environment.contains("x"));
    environment.insert("x", Type::Number);
    environment.insert("x", Type::Boolean);
    assert!(is_type(&environment, "x", |t| matches!(t, Type::Boolean)));
}

#[test]
fn lang_module_constructors() {
    let dummy = Module::dummy();
    assert_eq!(dummy.definitions().len(), 0);
    assert_eq!(dummy.imports().len(), 0);
    assert_eq!(dummy.import_foreigns().len(), 0);
    assert_eq!(dummy.type_definitions().len(), 0);
    assert_eq!(dummy.path().package.name, "");
    assert_eq!(dummy.export().names.len(), 0);
    assert_eq!(dummy.export_foreign().names.len(), 0);

    let module = Module::from_definitions(vec![value("x", Expression::Number(1, info()), Type::Number)]);
    assert_eq!(module.definitions().len(), 1);
    assert_eq!(module.definitions()[0].name(), "x");

    let module = Module::from_definitions_and_type_definitions(
        vec![TypeDefinition::new("t", Type::Number)],
        vec![],
    );
    assert_eq!(module.type_definitions().len(), 1);
    assert_eq!(module.type_definitions()[0].name, "t");
    assert_eq!(module.definitions().len(), 0);
}

#[test]
fn lang_module_transform_expressions_goes_bottom_up() {
    // x = f 1; the transformation replaces numbers by `none` and counts nothing else.
    let module = Module::from_definitions(vec![value(
        "x",
        Expression::Application(Application {
            function: Box::new(variable("f")),
            argument: Box::new(Expression::Number(1, info())),
            source_information: info(),
        }),
        Type::Number,
    )]);
    let transformed = module
        .transform_expressions(&|expression: &Expression| -> Result<Expression, ()> {
            Ok(match expression {
                Expression::Number(_, information) => Expression::NoneLiteral(information.clone()),
                other => other.clone(),
            })
        })
        .unwrap();
    match &transformed.definitions()[0] {
        Definition::ValueDefinition(v) => match &v.body {
            Expression::Application(a) => {
                assert!(matches!(&*a.function, Expression::Variable(f) if f.name == "f"));
                assert!(matches!(&*a.argument, Expression::NoneLiteral(_)));
            }
            other => panic!("unexpected {:?}", other),
        },
        other => panic!("unexpected {:?}", other),
    }
    assert!(transformed.path().components.is_empty());
}

#[test]
fn lang_module_transform_expressions_stops_at_first_error() {
    let module = Module::from_definitions(vec![
        value("x", Expression::Number(1, info()), Type::Number),
        value("y", variable("z"), Type::Number),
    ]);
    let result = module.transform_expressions(&|expression: &Expression| -> Result<Expression, String> {
        match expression {
            Expression::Variable(v) => Err(v.name.clone()),
            other => Ok(other.clone()),
        }
    });
    assert_eq!(result.unwrap_err(), "z");
}

#[test]
fn lang_module_transform_types_reaches_foreign_imports_type_definitions_and_definitions() {
    let module = Module::new(
        ModulePath::new(Package::new("p", "1"), vec![]),
        Export::new(vec![]),
        ExportForeign::new(vec!["x".to_string()]),
        vec![],
        vec![ImportForeign::new("c", "c", CallingConvention::C, Type::Unknown(info()), info())],
        vec![TypeDefinition::new("t", Type::Unknown(info()))],
        vec![value("x", Expression::Number(1, info()), Type::Unknown(info()))],
    );
    let transformed = module
        .transform_types(&|type_: &Type| -> Result<Type, ()> {
            Ok(match type_ {
                Type::Unknown(_) => Type::Number,
                other => other.clone(),
            })
        })
        .unwrap();
    assert!(matches!(transformed.import_foreigns()[0].type_, Type::Number));
    assert!(matches!(transformed.type_definitions()[0].type_, Type::Number));
    assert!(matches!(transformed.definitions()[0].type_(), Type::Number));
    assert_eq!(transformed.export_foreign().names, vec!["x".to_string()]);
}

#[test]
fn identity_transformation_keeps_module() {
    let module = Module::from_definitions(vec![
        value("x", Expression::Number(1, info()), Type::Number),
        function("f", variable("a"), number_to_number()),
    ]);
    let transformed = module
        .transform_expressions(&|expression: &Expression| -> Result<Expression, ()> {
            Ok(expression.clone())
        })
        .unwrap();
    assert_eq!(transformed.definitions().len(), 2);
    assert_eq!(transformed.definitions()[0].name(), "x");
    assert!(matches!(
        &transformed.definitions()[1],
        Definition::FunctionDefinition(f) if f.arguments == vec!["a".to_string()]
            && matches!(&f.body, Expression::Variable(v) if v.name == "a")
    ));
}

#[test]
fn equality_operation_constructors_and_getters() {
    let operation = EqualityOperation::new(
        EqualityOperator::NotEqual,
        variable("a"),
        Expression::Number(2, info()),
        info(),
    );
    assert!(matches!(operation.type_(), Type::Unknown(i) if i.location.line_number() == 4));
    assert_eq!(operation.operator(), EqualityOperator::NotEqual);
    assert!(matches!(operation.lhs(), Expression::Variable(_)));
    assert!(matches!(operation.rhs(), Expression::Number(2, _)));
    assert_eq!(operation.source_information().source_name, "module.sl");
    assert_eq!(operation.source_information().location.line_number(), 4);

    let typed = EqualityOperation::with_type(
        Type::Number,
        EqualityOperator::Equal,
        variable("a"),
        variable("b"),
        info(),
    );
    assert!(matches!(typed.type_(), Type::Number));
    assert_eq!(typed.operator(), EqualityOperator::Equal);
}

#[test]
fn equality_operation_transforms() {
    let operation = EqualityOperation::new(
        EqualityOperator::Equal,
        variable("a"),
        Expression::Number(2, info()),
        info(),
    );
    let transformed = operation
        .transform_expressions(&|expression: &Expression| -> Result<Expression, ()> {
            Ok(match expression {
                Expression::Variable(_) => Expression::Boolean(true, info()),
                other => other.clone(),
            })
        })
        .unwrap();
    assert!(matches!(transformed.lhs(), Expression::Boolean(true, _)));
    assert!(matches!(transformed.rhs(), Expression::Number(2, _)));
    assert_eq!(transformed.operator(), EqualityOperator::Equal);

    let typed = operation
        .transform_types(&|type_: &Type| -> Result<Type, ()> {
            Ok(match type_ {
                Type::Unknown(_) => Type::Boolean,
                other => other.clone(),
            })
        })
        .unwrap();
    assert!(matches!(typed.type_(), Type::Boolean));
}

#[test]
fn ein_module_constructors() {
    let module = EinModule::dummy();
    assert_eq!(module.definitions().len(), 0);
    assert_eq!(module.ffi_imports().len(), 0);
    let module = EinModule::new(
        ModulePath::new(Package::new("p", "1"), vec!["a".to_string(), "b".to_string()]),
        Export::new(vec!["f".to_string()]),
        vec![import(&[("i", Type::Number)])],
        vec![FfiPackageInterface::new(vec![TypedName::new("g", number_to_number())])],
        vec![],
        vec![value("x", Expression::Number(0, info()), Type::Number)],
    );
    assert_eq!(module.path().components.len(), 2);
    assert_eq!(module.export().names, vec!["f".to_string()]);
    assert_eq!(module.imports().len(), 1);
    assert_eq!(module.ffi_imports()[0].functions[0].name, "g");
    assert_eq!(module.definitions()[0].name(), "x");
    let module = EinModule::from_definitions(vec![value("y", variable("x"), Type::Number)]);
    assert_eq!(module.definitions()[0].name(), "y");
    let module = EinModule::from_definitions_and_type_definitions(
        vec![TypeDefinition::new("t", Type::Boolean)],
        vec![],
    );
    assert_eq!(module.type_definitions()[0].name, "t");
}

#[test]
fn ein_module_transform_definitions_reaches_local_definitions_first() {
    // x = let y = 1 in y; every definition gets a type of Boolean.
    let module = EinModule::from_definitions(vec![value(
        "x",
        Expression::Let(Let {
            definitions: vec![value("y", Expression::Number(1, info()), Type::Number)],
            expression: Box::new(variable("y")),
            source_information: info(),
        }),
        Type::Number,
    )]);
    let transformed = module
        .transform_definitions(&|definition: &Definition| -> Result<Definition, ()> {
            Ok(match definition {
                Definition::ValueDefinition(v) => Definition::ValueDefinition(ValueDefinition {
                    name: v.name.clone(),
                    body: v.body.clone(),
                    type_: Type::Boolean,
                    source_information: v.source_information.clone(),
                }),
                other => other.clone(),
            })
        })
        .unwrap();
    match &transformed.definitions()[0] {
        Definition::ValueDefinition(v) => {
            assert!(matches!(v.type_, Type::Boolean));
            match &v.body {
                Expression::Let(l) => {
                    assert!(matches!(l.definitions[0].type_(), Type::Boolean));
                    assert!(matches!(&*l.expression, Expression::Variable(y) if y.name == "y"));
                }
                other => panic!("unexpected {:?}", other),
            }
        }
        other => panic!("unexpected {:?}", other),
    }
}

#[test]
fn ein_module_transform_expressions_and_types() {
    let module = EinModule::from_definitions_and_type_definitions(
        vec![TypeDefinition::new("t", Type::Unknown(info()))],
        vec![value("x", Expression::Number(1, info()), Type::Unknown(info()))],
    );
    let expressions = module
        .transform_expressions(&|expression: &Expression| -> Result<Expression, ()> {
            Ok(match expression {
                Expression::Number(_, _) => Expression::Boolean(false, info()),
                other => other.clone(),
            })
        })
        .unwrap();
    match &expressions.definitions()[0] {
        Definition::ValueDefinition(v) => assert!(matches!(v.body, Expression::Boolean(false, _))),
        other => panic!("unexpected {:?}", other),
    }
    let types = module
        .transform_types(&|type_: &Type| -> Result<Type, ()> {
            Ok(match type_ {
                Type::Unknown(_) => Type::NoneType,
                other => other.clone(),
            })
        })
        .unwrap();
    assert!(matches!(types.type_definitions()[0].type_, Type::NoneType));
    assert!(matches!(types.definitions()[0].type_(), Type::NoneType));
}

#[test]
fn identity_type_transformation_keeps_module() {
    let module = Module::new(
        ModulePath::new(Package::new("p", "1"), vec![]),
        Export::new(vec![]),
        ExportForeign::new(vec![]),
        vec![],
        vec![ImportForeign::new("c", "c", CallingConvention::C, number_to_number(), info())],
        vec![TypeDefinition::new("t", Type::Reference("u".to_string()))],
        vec![function("f", variable("a"), number_to_number())],
    );
    let transformed = module
        .transform_types(&|type_: &Type| -> Result<Type, ()> { Ok(type_.clone()) })
        .unwrap();
    assert!(matches!(
        &transformed.import_foreigns()[0].type_,
        Type::Function(a, b) if matches!(**a, Type::Number) && matches!(**b, Type::Number)
    ));
    assert!(matches!(&transformed.type_definitions()[0].type_, Type::Reference(u) if u == "u"));
    assert!(matches!(transformed.definitions()[0].type_(), Type::Function(_, _)));
    assert_eq!(transformed.definitions()[0].name(), "f");
}

#[test]
fn identity_definition_rewriting_keeps_ein_module() {
    let module = EinModule::from_definitions(vec![value(
        "x",
        Expression::Let(Let {
            definitions: vec![value("y", Expression::Number(1, info()), Type::Number)],
            expression: Box::new(variable("y")),
            source_information: info(),
        }),
        Type::Number,
    )]);
    let transformed = module
        .transform_definitions(&|definition: &Definition| -> Result<Definition, ()> {
            Ok(definition.clone())
        })
        .unwrap();
    match &transformed.definitions()[0] {
        Definition::ValueDefinition(v) => {
            assert_eq!(v.name, "x");
            assert!(matches!(v.type_, Type::Number));
            match &v.body {
                Expression::Let(l) => {
                    assert_eq!(l.definitions[0].name(), "y");
                    assert!(matches!(l.definitions[0].type_(), Type::Number));
                }
                other => panic!("unexpected {:?}", other),
            }
        }
        other => panic!("unexpected {:?}", other),
    }
}
