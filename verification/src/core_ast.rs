//! The core intermediate form: definitions of functions and values whose
//! bodies are expressions over variables, numbers, applications and
//! sequential `let` bindings.
use vstd::prelude::*;
use crate::names::NameMap;

verus! {

/// A type of the core form.
#[derive(Debug)]
pub enum Type {
    Number,
    Function(Box<Type>, Box<Type>),
}

impl Clone for Type {
    fn clone(&self) -> (copy: Self)
        ensures
            copy == *self,
        decreases self,
    {
        match self {
            Type::Number => Type::Number,
            Type::Function(argument, result) => Type::Function(
                Box::new((**argument).clone()),
                Box::new((**result).clone()),
            ),
        }
    }
}

/// The meaning of an expression: a term over names.
pub enum Term {
    Variable(Seq<char>),
    /// A number literal, by the bits of its IEEE 754 double.
    Number(u64),
    /// Sequential bindings, each of which sees the ones before it, and an
    /// expression that sees them all.
    Let(Seq<Binding>, Box<Term>),
    Application(Box<Term>, Box<Term>),
}

/// One binding of a `let`: its name, the term bound, and its type.
pub struct Binding {
    pub name: Seq<char>,
    pub body: Term,
    pub type_: Type,
}

/// A variable, by its name.
#[derive(Debug)]
pub struct Variable {
    name: String,
}

/// A value definition: a name bound to an expression of a type.
#[derive(Debug)]
pub struct ValueDefinition {
    name: String,
    body: Expression,
    type_: Type,
}

/// Sequential value definitions followed by an expression in their scope.
#[derive(Debug)]
pub struct LetValues {
    definitions: Vec<ValueDefinition>,
    expression: Box<Expression>,
}

/// An expression of the core form.
#[derive(Debug)]
pub enum Expression {
    Variable(Variable),
    /// A number literal, by the bits of its IEEE 754 double.
    Number(u64),
    LetValues(LetValues),
    Application(Box<Expression>, Box<Expression>),
}

pub closed spec fn term_of(expression: Expression) -> Term
    decreases expression,
{
    match expression {
        Expression::Variable(variable) => Term::Variable(variable.name@),
        Expression::Number(bits) => Term::Number(bits),
        Expression::LetValues(let_values) => Term::Let(
            bindings_of(let_values.definitions@),
            Box::new(term_of(*let_values.expression)),
        ),
        Expression::Application(function, argument) => Term::Application(
            Box::new(term_of(*function)),
            Box::new(term_of(*argument)),
        ),
    }
}

pub closed spec fn bindings_of(definitions: Seq<ValueDefinition>) -> Seq<Binding>
    decreases definitions,
{
    if definitions.len() == 0 {
        seq![]
    } else {
        let last = definitions.last();
        bindings_of(definitions.drop_last()).push(
            Binding { name: last.name@, body: term_of(last.body), type_: last.type_ },
        )
    }
}

} // verus!

verus! {

/// An argument of a function: its name and type.
#[derive(Debug)]
pub struct Argument {
    name: String,
    type_: Type,
}

/// A function definition: its name, the variables it closes over, its
/// arguments, its body and the type of its result.
#[derive(Debug)]
pub struct FunctionDefinition {
    name: String,
    environment: Vec<Argument>,
    arguments: Vec<Argument>,
    body: Expression,
    result_type: Type,
}

/// A top-level definition.
#[derive(Debug)]
pub enum Definition {
    FunctionDefinition(FunctionDefinition),
    ValueDefinition(ValueDefinition),
}

/// A module of the core form: its definitions, in order.
#[derive(Debug)]
pub struct Module {
    definitions: Vec<Definition>,
}

/// The meaning of a function definition.
pub struct FunctionModel {
    pub name: Seq<char>,
    pub environment: Seq<(Seq<char>, Type)>,
    pub arguments: Seq<(Seq<char>, Type)>,
    pub body: Term,
    pub result_type: Type,
}

/// The meaning of a top-level definition.
pub enum DefinitionModel {
    Function(FunctionModel),
    Value(Binding),
}

impl DefinitionModel {
    pub open spec fn name(self) -> Seq<char> {
        match self {
            DefinitionModel::Function(f) => f.name,
            DefinitionModel::Value(v) => v.name,
        }
    }
}

impl View for Variable {
    type V = Seq<char>;

    closed spec fn view(&self) -> Seq<char> {
        self.name@
    }
}

impl View for Expression {
    type V = Term;

    closed spec fn view(&self) -> Term {
        term_of(*self)
    }
}

impl View for ValueDefinition {
    type V = Binding;

    closed spec fn view(&self) -> Binding {
        Binding { name: self.name@, body: term_of(self.body), type_: self.type_ }
    }
}

impl View for LetValues {
    type V = Term;

    closed spec fn view(&self) -> Term {
        Term::Let(bindings_of(self.definitions@), Box::new(term_of(*self.expression)))
    }
}

impl View for Argument {
    type V = (Seq<char>, Type);

    closed spec fn view(&self) -> (Seq<char>, Type) {
        (self.name@, self.type_)
    }
}

pub closed spec fn arguments_of(arguments: Seq<Argument>) -> Seq<(Seq<char>, Type)> {
    arguments.map_values(|argument: Argument| argument@)
}

impl View for FunctionDefinition {
    type V = FunctionModel;

    closed spec fn view(&self) -> FunctionModel {
        FunctionModel {
            name: self.name@,
            environment: arguments_of(self.environment@),
            arguments: arguments_of(self.arguments@),
            body: term_of(self.body),
            result_type: self.result_type,
        }
    }
}

impl View for Definition {
    type V = DefinitionModel;

    closed spec fn view(&self) -> DefinitionModel {
        match self {
            Definition::FunctionDefinition(f) => DefinitionModel::Function(f@),
            Definition::ValueDefinition(v) => DefinitionModel::Value(v@),
        }
    }
}

impl View for Module {
    type V = Seq<DefinitionModel>;

    closed spec fn view(&self) -> Seq<DefinitionModel> {
        self.definitions@.map_values(|definition: Definition| definition@)
    }
}

/// What `name` becomes under `names`: its image where it has one, else
/// itself.
pub open spec fn rename_name(name: Seq<char>, names: Map<Seq<char>, Seq<char>>) -> Seq<char> {
    if names.contains_key(name) {
        names[name]
    } else {
        name
    }
}

/// The names that `bindings` bind.
pub open spec fn binding_names(bindings: Seq<Binding>) -> Set<Seq<char>> {
    Set::new(|name: Seq<char>| exists|i: int| 0 <= i < bindings.len() && bindings[i].name == name)
}

/// Renames the free variables of `term` under `names`. A name that a `let`
/// binds is not renamed in the bindings after it nor in its body.
pub open spec fn rename_term(term: Term, names: Map<Seq<char>, Seq<char>>) -> Term
    decreases term,
{
    match term {
        Term::Variable(name) => Term::Variable(rename_name(name, names)),
        Term::Number(bits) => Term::Number(bits),
        Term::Let(bindings, body) => Term::Let(
            rename_bindings(bindings, names),
            Box::new(rename_term(*body, names.remove_keys(binding_names(bindings)))),
        ),
        Term::Application(function, argument) => Term::Application(
            Box::new(rename_term(*function, names)),
            Box::new(rename_term(*argument, names)),
        ),
    }
}

/// Renames the bodies of sequential bindings: each body under `names`
/// without the names bound before it.
pub open spec fn rename_bindings(bindings: Seq<Binding>, names: Map<Seq<char>, Seq<char>>) -> Seq<
    Binding,
>
    decreases bindings,
{
    if bindings.len() == 0 {
        seq![]
    } else {
        let init = bindings.drop_last();
        let last = bindings.last();
        rename_bindings(init, names).push(
            Binding {
                name: last.name,
                body: rename_term(last.body, names.remove_keys(binding_names(init))),
                type_: last.type_,
            },
        )
    }
}

/// The names held in `scope`.
spec fn scope_names(scope: Seq<String>) -> Set<Seq<char>> {
    Set::new(|name: Seq<char>| exists|i: int| 0 <= i < scope.len() && scope[i]@ == name)
}

proof fn lemma_remove_keys_twice(
    names: Map<Seq<char>, Seq<char>>,
    first: Set<Seq<char>>,
    second: Set<Seq<char>>,
)
    ensures
        names.remove_keys(first).remove_keys(second) == names.remove_keys(first.union(second)),
{
    assert(names.remove_keys(first).remove_keys(second) =~= names.remove_keys(first.union(second)));
}

proof fn lemma_scope_push(scope: Seq<String>, name: String)
    ensures
        scope_names(scope.push(name)) == scope_names(scope).insert(name@),
{
    let pushed = scope.push(name);
    assert forall|n: Seq<char>| scope_names(pushed).contains(n) implies #[trigger] scope_names(
        scope,
    ).insert(name@).contains(n) by {
        let i = choose|i: int| 0 <= i < pushed.len() && pushed[i]@ == n;
        if i < scope.len() {
            assert(scope[i]@ == n);
        }
    }
    assert forall|n: Seq<char>| #[trigger] scope_names(scope).insert(name@).contains(n) implies
        scope_names(
        pushed,
    ).contains(n) by {
        if n == name@ {
            assert(pushed[scope.len() as int]@ == n);
        } else {
            let i = choose|i: int| 0 <= i < scope.len() && scope[i]@ == n;
            assert(pushed[i]@ == n);
        }
    }
    assert(scope_names(pushed) =~= scope_names(scope).insert(name@));
}

proof fn lemma_binding_names_push(bindings: Seq<Binding>, binding: Binding)
    ensures
        binding_names(bindings.push(binding)) == binding_names(bindings).insert(binding.name),
{
    let pushed = bindings.push(binding);
    assert forall|n: Seq<char>| binding_names(pushed).contains(n) implies #[trigger] binding_names(
        bindings,
    ).insert(binding.name).contains(n) by {
        let i = choose|i: int| 0 <= i < pushed.len() && pushed[i].name == n;
        if i < bindings.len() {
            assert(bindings[i].name == n);
        }
    }
    assert forall|n: Seq<char>| #[trigger] binding_names(bindings).insert(binding.name).contains(
        n,
    ) implies binding_names(pushed).contains(n) by {
        if n == binding.name {
            assert(pushed[bindings.len() as int].name == n);
        } else {
            let i = choose|i: int| 0 <= i < bindings.len() && bindings[i].name == n;
            assert(pushed[i].name == n);
        }
    }
    assert(binding_names(pushed) =~= binding_names(bindings).insert(binding.name));
}

proof fn lemma_bindings_of_push(definitions: Seq<ValueDefinition>, definition: ValueDefinition)
    ensures
        bindings_of(definitions.push(definition)) == bindings_of(definitions).push(definition@),
{
    assert(definitions.push(definition).drop_last() =~= definitions);
}

proof fn lemma_rename_bindings_push(
    bindings: Seq<Binding>,
    binding: Binding,
    names: Map<Seq<char>, Seq<char>>,
)
    ensures
        rename_bindings(bindings.push(binding), names) == rename_bindings(bindings, names).push(
            Binding {
                name: binding.name,
                body: rename_term(binding.body, names.remove_keys(binding_names(bindings))),
                type_: binding.type_,
            },
        ),
{
    assert(bindings.push(binding).drop_last() =~= bindings);
}

impl Variable {
    pub fn new(name: &str) -> (variable: Self)
        ensures
            variable@ == name@,
    {
        Variable { name: String::from_str(name) }
    }

    pub fn name(&self) -> (name: &str)
        ensures
            name@ == self@,
    {
        self.name.as_str()
    }

    /// This variable, renamed under `names`.
    pub fn rename_variables(&self, names: &NameMap) -> (renamed: Self)
        ensures
            renamed@ == rename_name(self@, names@),
    {
        match names.get(self.name.as_str()) {
            Some(name) => Variable { name: name.clone() },
            None => Variable { name: self.name.clone() },
        }
    }

    /// This variable, renamed under `names` unless `scope` binds it.
    fn rename_in_scope(&self, names: &NameMap, scope: &Vec<String>) -> (renamed: Self)
        ensures
            renamed@ == rename_name(self@, names@.remove_keys(scope_names(scope@))),
    {
        let mut i: usize = 0;
        while i < scope.len()
            invariant
                i <= scope@.len(),
                forall|j: int| 0 <= j < i ==> scope@[j]@ != self.name@,
            decreases scope@.len() - i,
        {
            if scope[i] == self.name {
                assert(scope_names(scope@).contains(self@));
                return Variable { name: self.name.clone() };
            }
            i = i + 1;
        }
        assert(!scope_names(scope@).contains(self@));
        self.rename_variables(names)
    }
}

impl Expression {
    /// This expression with its free variables renamed under `names`.
    pub fn rename_variables(&self, names: &NameMap) -> (renamed: Self)
        ensures
            renamed@ == rename_term(self@, names@),
    {
        let mut scope: Vec<String> = Vec::new();
        let renamed = self.rename_in_scope(names, &mut scope);
        assert(scope_names(scope@) =~= Set::<Seq<char>>::empty());
        assert(names@.remove_keys(Set::<Seq<char>>::empty()) =~= names@);
        renamed
    }

    fn rename_in_scope(&self, names: &NameMap, scope: &mut Vec<String>) -> (renamed: Self)
        ensures
            renamed@ == rename_term(self@, names@.remove_keys(scope_names(old(scope)@))),
            final(scope)@ == old(scope)@,
        decreases self,
    {
        match self {
            Expression::Variable(variable) => Expression::Variable(
                variable.rename_in_scope(names, scope),
            ),
            Expression::Number(bits) => Expression::Number(*bits),
            Expression::LetValues(let_values) => Expression::LetValues(
                let_values.rename_in_scope(names, scope),
            ),
            Expression::Application(function, argument) => {
                let function = function.rename_in_scope(names, scope);
                let argument = argument.rename_in_scope(names, scope);
                Expression::Application(Box::new(function), Box::new(argument))
            },
        }
    }
}

impl LetValues {
    pub fn new(definitions: Vec<ValueDefinition>, expression: Expression) -> (let_values: Self)
        ensures
            let_values@ == Term::Let(
                definitions@.map_values(|d: ValueDefinition| d@),
                Box::new(expression@),
            ),
    {
        let let_values = LetValues { definitions, expression: Box::new(expression) };
        proof {
            lemma_bindings_of_views(let_values.definitions@);
        }
        let_values
    }

    pub fn definitions(&self) -> (definitions: &[ValueDefinition])
        ensures
            definitions@.map_values(|d: ValueDefinition| d@) == self@->Let_0,
    {
        proof {
            lemma_bindings_of_views(self.definitions@);
        }
        self.definitions.as_slice()
    }

    pub fn expression(&self) -> (expression: &Expression)
        ensures
            expression@ == *(self@->Let_1),
    {
        &self.expression
    }

    fn rename_in_scope(&self, names: &NameMap, scope: &mut Vec<String>) -> (renamed: Self)
        ensures
            renamed@ == rename_term(self@, names@.remove_keys(scope_names(old(scope)@))),
            final(scope)@ == old(scope)@,
        decreases self,
    {
        let ghost outer = names@.remove_keys(scope_names(scope@));
        let ghost initial = scope@;
        let ghost definitions_view = self.definitions@;
        let initial_length = scope.len();
        let count = self.definitions.len();
        let mut definitions: Vec<ValueDefinition> = Vec::new();
        let mut i: usize = 0;
        assert(definitions_view.take(0) =~= Seq::<ValueDefinition>::empty());
        assert(binding_names(bindings_of(definitions_view.take(0))) =~= Set::<Seq<char>>::empty());
        assert(scope_names(initial).union(Set::<Seq<char>>::empty()) =~= scope_names(initial));
        while i < count
            invariant
                count == definitions_view.len(),
                initial_length == initial.len(),
                definitions_view == self.definitions@,
                i <= count,
                outer == names@.remove_keys(scope_names(initial)),
                scope_names(scope@) == scope_names(initial).union(
                    binding_names(bindings_of(definitions_view.take(i as int))),
                ),
                scope@.len() >= initial.len(),
                scope@.subrange(0, initial.len() as int) == initial,
                bindings_of(definitions@) == rename_bindings(
                    bindings_of(definitions_view.take(i as int)),
                    outer,
                ),
            decreases count - i,
        {
            let definition = &self.definitions[i];
            let ghost before = bindings_of(definitions_view.take(i as int));
            proof {
                lemma_remove_keys_twice(names@, scope_names(initial), binding_names(before));
            }
            let body = definition.body.rename_in_scope(names, scope);
            let renamed = ValueDefinition {
                name: definition.name.clone(),
                body,
                type_: definition.type_.clone(),
            };
            proof {
                lemma_bindings_of_push(definitions@, renamed);
                assert(definitions_view.take(i + 1).drop_last() =~= definitions_view.take(i as
                    int));
                lemma_bindings_of_push(definitions_view.take(i as int), *definition);
                assert(definitions_view.take(i + 1) =~= definitions_view.take(i as
                    int).push(*definition));
                lemma_rename_bindings_push(before, definition@, outer);
                lemma_binding_names_push(before, definition@);
                lemma_scope_push(scope@, definition.name);
            }
            definitions.push(renamed);
            let ghost scope_before = scope@;
            scope.push(definition.name.clone());
            proof {
                assert(scope@ == scope_before.push(definition.name));
                assert(scope_names(scope@) =~= scope_names(initial).union(
                    binding_names(bindings_of(definitions_view.take(i + 1))),
                ));
                assert(scope@.subrange(0, initial.len() as int) =~= scope_before.subrange(0,
                    initial.len() as int));
            }
            i = i + 1;
        }
        proof {
            assert(definitions_view.take(count as int) =~= definitions_view);
            lemma_remove_keys_twice(
                names@,
                scope_names(initial),
                binding_names(bindings_of(definitions_view)),
            );
        }
        let expression = self.expression.rename_in_scope(names, scope);
        scope.truncate(initial_length);
        assert(scope@ =~= initial);
        LetValues { definitions, expression: Box::new(expression) }
    }
}

proof fn lemma_bindings_of_views(definitions: Seq<ValueDefinition>)
    ensures
        bindings_of(definitions) == definitions.map_values(|d: ValueDefinition| d@),
    decreases definitions.len(),
{
    if definitions.len() > 0 {
        lemma_bindings_of_views(definitions.drop_last());
        assert(definitions.map_values(|d: ValueDefinition| d@) =~=
            definitions.drop_last().map_values(
            |d: ValueDefinition| d@,
        ).push(definitions.last()@));
    } else {
        assert(definitions.map_values(|d: ValueDefinition| d@) =~= Seq::<Binding>::empty());
    }
}

} // verus!

verus! {

impl Clone for Argument {
    fn clone(&self) -> (copy: Self)
        ensures
            copy == *self,
    {
        Argument { name: self.name.clone(), type_: self.type_.clone() }
    }
}

/// A copy of `arguments`, argument by argument.
fn copy_arguments(arguments: &Vec<Argument>) -> (copy: Vec<Argument>)
    ensures
        copy@ == arguments@,
{
    let copy = arguments.clone();
    assert(copy@ =~= arguments@) by {
        assert forall|i: int| 0 <= i < arguments@.len() implies copy@[i] == arguments@[i] by {
            assert(cloned::<Argument>(arguments[i], copy[i]));
        }
    }
    copy
}

impl Argument {
    pub fn new(name: &str, type_: Type) -> (argument: Self)
        ensures
            argument@ == (name@, type_),
    {
        Argument { name: String::from_str(name), type_ }
    }

    pub fn name(&self) -> (name: &str)
        ensures
            name@ == self@.0,
    {
        self.name.as_str()
    }

    pub fn type_(&self) -> (type_: &Type)
        ensures
            *type_ == self@.1,
    {
        &self.type_
    }
}

impl ValueDefinition {
    pub fn new(name: &str, body: Expression, type_: Type) -> (definition: Self)
        ensures
            definition@ == (Binding { name: name@, body: body@, type_ }),
    {
        ValueDefinition { name: String::from_str(name), body, type_ }
    }

    pub fn name(&self) -> (name: &str)
        ensures
            name@ == self@.name,
    {
        self.name.as_str()
    }

    pub fn body(&self) -> (body: &Expression)
        ensures
            body@ == self@.body,
    {
        &self.body
    }

    pub fn type_(&self) -> (type_: &Type)
        ensures
            *type_ == self@.type_,
    {
        &self.type_
    }
}

impl FunctionDefinition {
    pub fn new(
        name: &str,
        environment: Vec<Argument>,
        arguments: Vec<Argument>,
        body: Expression,
        result_type: Type,
    ) -> (definition: Self)
        ensures
            definition@ == (FunctionModel {
                name: name@,
                environment: arguments_of(environment@),
                arguments: arguments_of(arguments@),
                body: body@,
                result_type,
            }),
    {
        FunctionDefinition { name: String::from_str(name), environment, arguments, body, result_type
            }
    }

    pub fn name(&self) -> (name: &str)
        ensures
            name@ == self@.name,
    {
        self.name.as_str()
    }

    pub fn environment(&self) -> (environment: &[Argument])
        ensures
            arguments_of(environment@) == self@.environment,
    {
        self.environment.as_slice()
    }

    pub fn arguments(&self) -> (arguments: &[Argument])
        ensures
            arguments_of(arguments@) == self@.arguments,
    {
        self.arguments.as_slice()
    }

    pub fn body(&self) -> (body: &Expression)
        ensures
            body@ == self@.body,
    {
        &self.body
    }

    pub fn result_type(&self) -> (result_type: &Type)
        ensures
            *result_type == self@.result_type,
    {
        &self.result_type
    }
}

impl Definition {
    pub fn name(&self) -> (name: &str)
        ensures
            name@ == self@.name(),
    {
        match self {
            Definition::FunctionDefinition(f) => f.name(),
            Definition::ValueDefinition(v) => v.name(),
        }
    }
}

impl Module {
    pub fn new(definitions: Vec<Definition>) -> (module: Self)
        ensures
            module@ == definitions@.map_values(|d: Definition| d@),
    {
        Module { definitions }
    }

    pub fn definitions(&self) -> (definitions: &[Definition])
        ensures
            definitions@.map_values(|d: Definition| d@) == self@,
    {
        self.definitions.as_slice()
    }
}

impl Expression {
    /// A variable expression.
    pub fn variable(name: &str) -> (expression: Self)
        ensures
            expression@ == Term::Variable(name@),
    {
        Expression::Variable(Variable::new(name))
    }
}

/// The view of an expression by its variant: a variable's name, a number's
/// bits, the view of a `let`, and the views of an application's parts.
pub proof fn lemma_expression_view(expression: Expression)
    ensures
        match expression {
            Expression::Variable(variable) => expression@ == Term::Variable(variable@),
            Expression::Number(bits) => expression@ == Term::Number(bits),
            Expression::LetValues(let_values) => expression@ == let_values@,
            Expression::Application(function, argument) => expression@ == Term::Application(
                Box::new(function@),
                Box::new(argument@),
            ),
        },
{
}

/// The view of a top-level definition by its variant: the view of the
/// function or of the value it defines.
pub proof fn lemma_definition_view(definition: Definition)
    ensures
        match definition {
            Definition::FunctionDefinition(function) => definition@ == DefinitionModel::Function(
                function@,
            ),
            Definition::ValueDefinition(value) => definition@ == DefinitionModel::Value(value@),
        },
{
}

/// Renaming under no names changes nothing: every term is its own
/// renaming under the empty map.
pub proof fn lemma_rename_term_without_names(term: Term)
    ensures
        rename_term(term, Map::empty()) == term,
    decreases term,
{
    match term {
        Term::Let(bindings, body) => {
            lemma_rename_bindings_without_names(bindings);
            assert(Map::<Seq<char>, Seq<char>>::empty().remove_keys(binding_names(bindings))
                =~= Map::empty());
            lemma_rename_term_without_names(*body);
        },
        Term::Application(function, argument) => {
            lemma_rename_term_without_names(*function);
            lemma_rename_term_without_names(*argument);
        },
        _ => {},
    }
}

/// Renaming bindings under no names changes none of them.
pub proof fn lemma_rename_bindings_without_names(bindings: Seq<Binding>)
    ensures
        rename_bindings(bindings, Map::empty()) == bindings,
    decreases bindings,
{
    if bindings.len() > 0 {
        let init = bindings.drop_last();
        lemma_rename_bindings_without_names(init);
        assert(Map::<Seq<char>, Seq<char>>::empty().remove_keys(binding_names(init))
            =~= Map::empty());
        lemma_rename_term_without_names(bindings.last().body);
        assert(rename_bindings(bindings, Map::empty()) =~= bindings);
    }
}

/// The names that rename a module's top-level definitions: each defined name
/// is qualified by the module's name and a dot, and `main` becomes the
/// entry point `sloth_main`.
pub open spec fn top_level_names(definitions: Seq<DefinitionModel>, module_name: Seq<char>) -> Map<
    Seq<char>,
    Seq<char>,
> {
    Map::new(
        |name: Seq<char>| exists|i: int| 0 <= i < definitions.len() && definitions[i].name() ==
            name,
        |name: Seq<char>| module_name + "."@ + name,
    ).insert("main"@, "sloth_main"@)
}

/// A top-level definition with its name and the free variables of its body
/// renamed under `names`; everything else is kept.
pub open spec fn rename_definition(
    definition: DefinitionModel,
    names: Map<Seq<char>, Seq<char>>,
) -> DefinitionModel {
    match definition {
        DefinitionModel::Function(f) => DefinitionModel::Function(
            FunctionModel {
                name: rename_name(f.name, names),
                environment: f.environment,
                arguments: f.arguments,
                body: rename_term(f.body, names),
                result_type: f.result_type,
            },
        ),
        DefinitionModel::Value(v) => DefinitionModel::Value(
            Binding {
                name: rename_name(v.name, names),
                body: rename_term(v.body, names),
                type_: v.type_,
            },
        ),
    }
}

impl Definition {
    /// This definition with its name and the free variables of its body
    /// renamed under `names`.
    pub fn rename_variables(&self, names: &NameMap) -> (renamed: Self)
        ensures
            renamed@ == rename_definition(self@, names@),
    {
        match self {
            Definition::FunctionDefinition(f) => {
                let name = match names.get(f.name.as_str()) {
                    Some(name) => name.clone(),
                    None => f.name.clone(),
                };
                Definition::FunctionDefinition(
                    FunctionDefinition {
                        name,
                        environment: copy_arguments(&f.environment),
                        arguments: copy_arguments(&f.arguments),
                        body: f.body.rename_variables(names),
                        result_type: f.result_type.clone(),
                    },
                )
            },
            Definition::ValueDefinition(v) => {
                let name = match names.get(v.name.as_str()) {
                    Some(name) => name.clone(),
                    None => v.name.clone(),
                };
                Definition::ValueDefinition(
                    ValueDefinition {
                        name,
                        body: v.body.rename_variables(names),
                        type_: v.type_.clone(),
                    },
                )
            },
        }
    }
}

} // verus!
