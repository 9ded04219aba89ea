use sloth::compile::rename_top_level_variables;
use sloth::core_ast::{
    Argument, Definition, Expression, FunctionDefinition, LetValues, Module, Type,
    ValueDefinition, Variable,
};
use sloth::NameMap;

fn names(pairs: &[(&str, &str)]) -> NameMap {
    let mut names = NameMap::new();
    for (from, to) in pairs {
        names.insert(from.to_string(), to.to_string());
    }
    names
}

fn variable_name(expression: &Expression) -> String {
    match expression {
        Expression::Variable(variable) => variable.name().to_string(),
        _ => panic!("not a variable"),
    }
}

#[test]
fn variable_keeps_its_name() {
    let variable = Variable::new("x");
    assert_eq!(variable.name(), "x");
}

#[test]
fn variable_is_renamed_when_mapped() {
    let renamed = Variable::new("x").rename_variables(&names(&[("x", "m.x")]));
    assert_eq!(renamed.name(), "m.x");
}

#[test]
fn variable_is_kept_when_not_mapped() {
    let renamed = Variable::new("y").rename_variables(&names(&[("x", "m.x")]));
    assert_eq!(renamed.name(), "y");
}

#[test]
fn renaming_under_no_names_keeps_expression() {
    let expression = Expression::Application(
        Box::new(Expression::variable("f")),
        Box::new(Expression::variable("x")),
    );
    match expression.rename_variables(&NameMap::new()) {
        Expression::Application(function, argument) => {
            assert_eq!(variable_name(&function), "f");
            assert_eq!(variable_name(&argument), "x");
        }
        _ => panic!("not an application"),
    }
}

#[test]
fn let_values_getters() {
    let let_values = LetValues::new(
        vec![ValueDefinition::new("x", Expression::Number(7), Type::Number)],
        Expression::variable("x"),
    );
    assert_eq!(let_values.definitions().len(), 1);
    assert_eq!(let_values.definitions()[0].name(), "x");
    assert_eq!(variable_name(let_values.expression()), "x");
}

#[test]
fn let_binding_shadows_renaming_in_later_bindings_and_body() {
    // let y = x; x = y; in x y
    let expression = Expression::LetValues(LetValues::new(
        vec![
            ValueDefinition::new("y", Expression::variable("x"), Type::Number),
            ValueDefinition::new("x", Expression::variable("y"), Type::Number),
        ],
        Expression::Application(
            Box::new(Expression::variable("x")),
            Box::new(Expression::variable("y")),
        ),
    ));
    let renamed = expression.rename_variables(&names(&[("x", "m.x"), ("y", "m.y")]));
    match renamed {
        Expression::LetValues(let_values) => {
            let definitions = let_values.definitions();
            assert_eq!(definitions[0].name(), "y");
            assert_eq!(variable_name(definitions[0].body()), "m.x");
            assert_eq!(definitions[1].name(), "x");
            assert_eq!(variable_name(definitions[1].body()), "y");
            match let_values.expression() {
                Expression::Application(function, argument) => {
                    assert_eq!(variable_name(function), "x");
                    assert_eq!(variable_name(argument), "y");
                }
                _ => panic!("not an application"),
            }
        }
        _ => panic!("not a let"),
    }
}

#[test]
fn numbers_are_kept_by_renaming() {
    match Expression::Number(42).rename_variables(&names(&[("x", "y")])) {
        Expression::Number(bits) => assert_eq!(bits, 42),
        _ => panic!("not a number"),
    }
}

#[test]
fn top_level_definitions_are_qualified_by_module_name() {
    let module = Module::new(vec![
        Definition::ValueDefinition(ValueDefinition::new(
            "x",
            Expression::Number(1),
            Type::Number,
        )),
        Definition::FunctionDefinition(FunctionDefinition::new(
            "f",
            vec![],
            vec![Argument::new("a", Type::Number)],
            Expression::Application(
                Box::new(Expression::variable("f")),
                Box::new(Expression::variable("x")),
            ),
            Type::Number,
        )),
        Definition::ValueDefinition(ValueDefinition::new(
            "main",
            Expression::variable("x"),
            Type::Number,
        )),
    ]);
    let renamed = rename_top_level_variables(&module, "foo");
    let definitions = renamed.definitions();
    assert_eq!(definitions.len(), 3);
    assert_eq!(definitions[0].name(), "foo.x");
    assert_eq!(definitions[1].name(), "foo.f");
    assert_eq!(definitions[2].name(), "sloth_main");
    match &definitions[1] {
        Definition::FunctionDefinition(function) => {
            assert_eq!(function.arguments().len(), 1);
            assert_eq!(function.arguments()[0].name(), "a");
            match function.body() {
                Expression::Application(f, x) => {
                    assert_eq!(variable_name(f), "foo.f");
                    assert_eq!(variable_name(x), "foo.x");
                }
                _ => panic!("not an application"),
            }
        }
        _ => panic!("not a function"),
    }
    match &definitions[2] {
        Definition::ValueDefinition(value) => assert_eq!(variable_name(value.body()), "foo.x"),
        _ => panic!("not a value"),
    }
}

#[test]
fn free_variables_that_are_not_top_level_are_kept() {
    let module = Module::new(vec![Definition::ValueDefinition(ValueDefinition::new(
        "x",
        Expression::variable("y"),
        Type::Number,
    ))]);
    let renamed = rename_top_level_variables(&module, "m");
    match &renamed.definitions()[0] {
        Definition::ValueDefinition(value) => {
            assert_eq!(value.name(), "m.x");
            assert_eq!(variable_name(value.body()), "y");
        }
        _ => panic!("not a value"),
    }
}

#[test]
fn empty_module_stays_empty() {
    let renamed = rename_top_level_variables(&Module::new(vec![]), "m");
    assert_eq!(renamed.definitions().len(), 0);
}

#[test]
fn name_map_insert_get_contains() {
    let mut names = NameMap::new();
    assert!(!names.contains("a"));
    names.insert("a".to_string(), "b".to_string());
    names.insert("a".to_string(), "c".to_string());
    assert!(names.contains("a"));
    assert_eq!(names.get("a").map(|s| s.as_str()), Some("c"));
    assert_eq!(names.get("z"), None);
}

#[test]
fn main_and_its_references_are_renamed() {
    let module = Module::new(vec![
        Definition::ValueDefinition(ValueDefinition::new(
            "main",
            Expression::Variable(Variable::new("x")),
            Type::Number,
        )),
        Definition::ValueDefinition(ValueDefinition::new(
            "x",
            Expression::Variable(Variable::new("y")),
            Type::Number,
        )),
    ]);
    let renamed = rename_top_level_variables(&module, "Foo");
    let definitions = renamed.definitions();
    match (&definitions[0], &definitions[1]) {
        (Definition::ValueDefinition(main), Definition::ValueDefinition(x)) => {
            assert_eq!(main.name(), "sloth_main");
            assert_eq!(variable_name(main.body()), "Foo.x");
            assert_eq!(x.name(), "Foo.x");
            assert_eq!(variable_name(x.body()), "y");
        }
        _ => panic!("not values"),
    }
}
