//! Comparisons of two expressions.
use vstd::prelude::*;
use crate::syntax::{
    expression_step, expression_transformed, expression_types_transformed, type_step,
    type_transformed, witness, EqualityOperation, EqualityOperator, Expression, SourceInformation,
    Type,
};

verus! {

/// Whether transforming the operands of `operation` yields `result`: the
/// left operand and then the right one are transformed bottom-up, and the
/// operation is rebuilt from their results with its type, operator and
/// source information; the first error stops the transformation.
pub open spec fn operands_transformed<E>(
    step: spec_fn(Expression, Result<Expression, E>) -> bool,
    operation: EqualityOperation,
    result: Result<EqualityOperation, E>,
) -> bool {
    exists|l: Result<Expression, E>|
        #[trigger] witness(l) && expression_transformed(step, *operation.lhs, l) && (l is Err
            ==> result == Err::<EqualityOperation, E>(l->Err_0)) && (l is Ok ==> exists|
            r: Result<Expression, E>,
        |
            #[trigger] witness(r) && expression_transformed(step, *operation.rhs, r) && (r is Err
                ==> result == Err::<EqualityOperation, E>(r->Err_0)) && (r is Ok ==> result is Ok
                && result->Ok_0.type_@ == operation.type_@ && result->Ok_0.operator
                == operation.operator && *result->Ok_0.lhs == l->Ok_0 && *result->Ok_0.rhs
                == r->Ok_0 && result->Ok_0.source_information == operation.source_information))
}

/// Whether transforming the types in `operation` yields `result`: its type
/// first, then the types in the left and in the right operand; the first
/// error stops the transformation.
pub open spec fn operation_types_transformed<E>(
    step: spec_fn(Type, Result<Type, E>) -> bool,
    operation: EqualityOperation,
    result: Result<EqualityOperation, E>,
) -> bool {
    exists|t: Result<Type, E>|
        #[trigger] witness(t) && type_transformed(step, operation.type_, t) && (t is Err ==> result
            == Err::<EqualityOperation, E>(t->Err_0)) && (t is Ok ==> exists|
            l: Result<Expression, E>,
        |
            #[trigger] witness(l) && expression_types_transformed(step, *operation.lhs, l) && (
            l is Err ==> result == Err::<EqualityOperation, E>(l->Err_0)) && (l is Ok ==> exists|
                r: Result<Expression, E>,
            |
                #[trigger] witness(r) && expression_types_transformed(step, *operation.rhs, r) && (
                r is Err ==> result == Err::<EqualityOperation, E>(r->Err_0)) && (r is Ok ==> result
                    is Ok && result->Ok_0.type_ == t->Ok_0 && result->Ok_0.operator
                    == operation.operator && *result->Ok_0.lhs == l->Ok_0 && *result->Ok_0.rhs
                    == r->Ok_0 && result->Ok_0.source_information
                    == operation.source_information)))
}

impl EqualityOperation {
    /// A comparison whose type is yet to be inferred.
    pub fn new(
        operator: EqualityOperator,
        lhs: Expression,
        rhs: Expression,
        source_information: SourceInformation,
    ) -> (operation: Self)
        ensures
            operation.type_ == Type::Unknown(source_information),
            operation.operator == operator,
            *operation.lhs == lhs,
            *operation.rhs == rhs,
            operation.source_information == source_information,
    {
        Self::with_type(
            Type::Unknown(source_information.clone()),
            operator,
            lhs,
            rhs,
            source_information,
        )
    }

    pub fn with_type(
        type_: Type,
        operator: EqualityOperator,
        lhs: Expression,
        rhs: Expression,
        source_information: SourceInformation,
    ) -> (operation: Self)
        ensures
            operation.type_ == type_,
            operation.operator == operator,
            *operation.lhs == lhs,
            *operation.rhs == rhs,
            operation.source_information == source_information,
    {
        EqualityOperation {
            type_,
            operator,
            lhs: Box::new(lhs),
            rhs: Box::new(rhs),
            source_information,
        }
    }

    pub fn type_(&self) -> (type_: &Type)
        ensures
            *type_ == self.type_,
    {
        &self.type_
    }

    pub fn operator(&self) -> (operator: EqualityOperator)
        ensures
            operator == self.operator,
    {
        self.operator
    }

    pub fn lhs(&self) -> (lhs: &Expression)
        ensures
            *lhs == *self.lhs,
    {
        &self.lhs
    }

    pub fn rhs(&self) -> (rhs: &Expression)
        ensures
            *rhs == *self.rhs,
    {
        &self.rhs
    }

    pub fn source_information(&self) -> (source_information: &SourceInformation)
        ensures
            *source_information == self.source_information,
    {
        &self.source_information
    }

    /// This comparison with its operands transformed bottom-up by
    /// `transform`; the comparison itself is not handed to `transform`.
    pub fn transform_expressions<E, F: Fn(&Expression) -> Result<Expression, E>>(
        &self,
        transform: &F,
    ) -> (result: Result<Self, E>)
        requires
            forall|expression: &Expression| transform.requires((expression,)),
        ensures
            operands_transformed(expression_step(transform), *self, result),
    {
        let l = self.lhs.transform_expressions(transform);
        assert(witness(l));
        let lhs = match l {
            Err(error) => return Err(error),
            Ok(lhs) => lhs,
        };
        let r = self.rhs.transform_expressions(transform);
        assert(witness(r));
        let rhs = match r {
            Err(error) => return Err(error),
            Ok(rhs) => rhs,
        };
        Ok(
            Self::with_type(
                self.type_.clone(),
                self.operator,
                lhs,
                rhs,
                self.source_information.clone(),
            ),
        )
    }

    /// This comparison with its type and the types in its operands
    /// transformed bottom-up by `transform`.
    pub fn transform_types<E, F: Fn(&Type) -> Result<Type, E>>(&self, transform: &F) -> (result:
        Result<Self, E>)
        requires
            forall|type_: &Type| transform.requires((type_,)),
        ensures
            operation_types_transformed(type_step(transform), *self, result),
    {
        let t = self.type_.transform_types(transform);
        assert(witness(t));
        let type_ = match t {
            Err(error) => return Err(error),
            Ok(type_) => type_,
        };
        let l = self.lhs.transform_types(transform);
        assert(witness(l));
        let lhs = match l {
            Err(error) => return Err(error),
            Ok(lhs) => lhs,
        };
        let r = self.rhs.transform_types(transform);
        assert(witness(r));
        let rhs = match r {
            Err(error) => return Err(error),
            Ok(rhs) => rhs,
        };
        Ok(Self::with_type(type_, self.operator, lhs, rhs, self.source_information.clone()))
    }
}

} // verus!

verus! {

/// Transforming a comparison treats both operands alike: where it
/// succeeds, each operand of the result is the bottom-up transformation of
/// the same operand of the comparison, and the type, operator and source
/// information are kept; where it fails, the error is that of transforming
/// the left operand, or, that having succeeded, of the right one.
pub proof fn lemma_operands_transformed_alike<E>(
    step: spec_fn(Expression, Result<Expression, E>) -> bool,
    operation: EqualityOperation,
    result: Result<EqualityOperation, E>,
)
    requires
        operands_transformed(step, operation, result),
    ensures
        result matches Ok(transformed) ==> {
            &&& expression_transformed(step, *operation.lhs, Ok(*transformed.lhs))
            &&& expression_transformed(step, *operation.rhs, Ok(*transformed.rhs))
            &&& transformed.type_@ == operation.type_@
            &&& transformed.operator == operation.operator
            &&& transformed.source_information == operation.source_information
        },
        result matches Err(error) ==> expression_transformed(step, *operation.lhs, Err(error)) || (
        exists|lhs: Expression|
            expression_transformed(step, *operation.lhs, Ok(lhs)) && expression_transformed(
                step,
                *operation.rhs,
                Err(error),
            )),
{
    let l = choose|l: Result<Expression, E>|
        #[trigger] witness(l) && expression_transformed(step, *operation.lhs, l) && (l is Err
            ==> result == Err::<EqualityOperation, E>(l->Err_0)) && (l is Ok ==> exists|
            r: Result<Expression, E>,
        |
            #[trigger] witness(r) && expression_transformed(step, *operation.rhs, r) && (r is Err
                ==> result == Err::<EqualityOperation, E>(r->Err_0)) && (r is Ok ==> result is Ok
                && result->Ok_0.type_@ == operation.type_@ && result->Ok_0.operator
                == operation.operator && *result->Ok_0.lhs == l->Ok_0 && *result->Ok_0.rhs
                == r->Ok_0 && result->Ok_0.source_information == operation.source_information));
    if l is Ok {
        let r = choose|r: Result<Expression, E>|
            #[trigger] witness(r) && expression_transformed(step, *operation.rhs, r) && (r is Err
                ==> result == Err::<EqualityOperation, E>(r->Err_0)) && (r is Ok ==> result is Ok
                && result->Ok_0.type_@ == operation.type_@ && result->Ok_0.operator
                == operation.operator && *result->Ok_0.lhs == l->Ok_0 && *result->Ok_0.rhs
                == r->Ok_0 && result->Ok_0.source_information == operation.source_information);
        if r is Err {
            assert(expression_transformed(step, *operation.lhs, Ok(l->Ok_0)));
        }
    }
}

/// Transforming the types in a comparison treats its type and both operands
/// alike: where it succeeds, the type of the result is the transformation
/// of the comparison's type, each operand the transformation of the types
/// in the same operand, and the operator and source information are kept.
pub proof fn lemma_operation_types_transformed_alike<E>(
    step: spec_fn(Type, Result<Type, E>) -> bool,
    operation: EqualityOperation,
    result: Result<EqualityOperation, E>,
)
    requires
        operation_types_transformed(step, operation, result),
    ensures
        result matches Ok(transformed) ==> {
            &&& type_transformed(step, operation.type_, Ok(transformed.type_))
            &&& expression_types_transformed(step, *operation.lhs, Ok(*transformed.lhs))
            &&& expression_types_transformed(step, *operation.rhs, Ok(*transformed.rhs))
            &&& transformed.operator == operation.operator
            &&& transformed.source_information == operation.source_information
        },
{
    let t = choose|t: Result<Type, E>|
        #[trigger] witness(t) && type_transformed(step, operation.type_, t) && (t is Err ==> result
            == Err::<EqualityOperation, E>(t->Err_0)) && (t is Ok ==> exists|
            l: Result<Expression, E>,
        |
            #[trigger] witness(l) && expression_types_transformed(step, *operation.lhs, l) && (
            l is Err ==> result == Err::<EqualityOperation, E>(l->Err_0)) && (l is Ok ==> exists|
                r: Result<Expression, E>,
            |
                #[trigger] witness(r) && expression_types_transformed(step, *operation.rhs, r) && (
                r is Err ==> result == Err::<EqualityOperation, E>(r->Err_0)) && (r is Ok ==> result
                    is Ok && result->Ok_0.type_ == t->Ok_0 && result->Ok_0.operator
                    == operation.operator && *result->Ok_0.lhs == l->Ok_0 && *result->Ok_0.rhs
                    == r->Ok_0 && result->Ok_0.source_information
                    == operation.source_information)));
    if t is Ok {
        let l = choose|l: Result<Expression, E>|
            #[trigger] witness(l) && expression_types_transformed(step, *operation.lhs, l) && (
            l is Err ==> result == Err::<EqualityOperation, E>(l->Err_0)) && (l is Ok ==> exists|
                r: Result<Expression, E>,
            |
                #[trigger] witness(r) && expression_types_transformed(step, *operation.rhs, r) && (
                r is Err ==> result == Err::<EqualityOperation, E>(r->Err_0)) && (r is Ok ==> result
                    is Ok && result->Ok_0.type_ == t->Ok_0 && result->Ok_0.operator
                    == operation.operator && *result->Ok_0.lhs == l->Ok_0 && *result->Ok_0.rhs
                    == r->Ok_0 && result->Ok_0.source_information
                    == operation.source_information));
        if l is Ok {
            let r = choose|r: Result<Expression, E>|
                #[trigger] witness(r) && expression_types_transformed(step, *operation.rhs, r) && (
                r is Err ==> result == Err::<EqualityOperation, E>(r->Err_0)) && (r is Ok ==> result
                    is Ok && result->Ok_0.type_ == t->Ok_0 && result->Ok_0.operator
                    == operation.operator && *result->Ok_0.lhs == l->Ok_0 && *result->Ok_0.rhs
                    == r->Ok_0 && result->Ok_0.source_information
                    == operation.source_information);
        }
    }
}

} // verus!
