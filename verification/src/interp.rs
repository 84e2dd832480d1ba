//! The evaluator: expressions reduce to values against an environment,
//! function application runs a body in a copy of the caller's environment,
//! and the driver runs a sequence of statements.

use crate::env::Env;
use crate::error::ErrorModel;
use crate::error::LalaError;
use crate::error::Operator;
use crate::error::ValueKind;
use crate::linalg::Matrix;
use crate::linalg::MatrixModel;
use crate::parser::clone_nodes;
use crate::parser::node_models;
use crate::parser::AstNode;
use crate::parser::DyadicVerb;
use crate::parser::MonadicVerb;
use crate::parser::NodeModel;
use crate::scalar::Scalar;
use crate::types::construct;
use crate::types::construct_matrix;
use crate::types::LalaType;
use crate::types::ValueModel;
use vstd::prelude::*;

verus! {

/// How many function applications may be nested inside one another.
pub const MAX_CALL_DEPTH: usize = 64;

/// The result of an evaluation, as a model.
pub open spec fn value_result(r: Result<LalaType, LalaError>) -> Result<ValueModel, ErrorModel> {
    match r {
        Ok(value) => Ok(value@),
        Err(e) => Err(e@),
    }
}

/// The failure of an operator that was handed something other than a matrix.
pub open spec fn not_a_matrix(op: Operator) -> ErrorModel {
    ErrorModel::TypeMismatch { expected: ValueKind::Matrix, op }
}

/// What a name evaluates to.
pub open spec fn lookup(env: Map<Seq<char>, ValueModel>, name: Seq<char>) -> Result<
    ValueModel,
    ErrorModel,
> {
    if env.contains_key(name) {
        Ok(env[name])
    } else {
        Err(ErrorModel::UndefinedVariable(name))
    }
}

/// What a unary operator gives on a matrix.
pub open spec fn monadic_on_matrix(verb: MonadicVerb, m: MatrixModel) -> Result<
    ValueModel,
    ErrorModel,
> {
    match verb {
        MonadicVerb::Inverse => if m.rows != m.cols {
            Err(ErrorModel::NotSquare)
        } else if m.det().spec_is_zero() {
            Err(ErrorModel::SingularMatrix)
        } else {
            Ok(ValueModel::Matrix(m.inverse()))
        },
        MonadicVerb::Rank => if m.rows > i32::MAX {
            Err(ErrorModel::DimensionMismatch)
        } else {
            Ok(ValueModel::Integer(m.rank() as int))
        },
        MonadicVerb::RREF => Ok(ValueModel::Matrix(m.rref())),
        MonadicVerb::Transpose => Ok(ValueModel::Matrix(m.transposed())),
        MonadicVerb::Determinant => if m.rows != m.cols {
            Err(ErrorModel::NotSquare)
        } else {
            Ok(ValueModel::Double(m.det()))
        },
    }
}

/// What a unary operator gives on a value.
pub open spec fn monadic_result(verb: MonadicVerb, operand: ValueModel) -> Result<
    ValueModel,
    ErrorModel,
> {
    match operand {
        ValueModel::Matrix(m) => monadic_on_matrix(verb, m),
        _ => Err(not_a_matrix(Operator::Monadic(verb))),
    }
}

/// What a binary operator gives on two matrices.
pub open spec fn dyadic_result(verb: DyadicVerb, a: MatrixModel, b: MatrixModel) -> Result<
    ValueModel,
    ErrorModel,
> {
    match verb {
        DyadicVerb::Dot => if a.cols != b.rows || a.rows * b.cols > usize::MAX {
            Err(ErrorModel::DimensionMismatch)
        } else {
            Ok(ValueModel::Matrix(a.product(b)))
        },
        DyadicVerb::Plus => if a.rows != b.rows || a.cols != b.cols {
            Err(ErrorModel::DimensionMismatch)
        } else {
            Ok(ValueModel::Matrix(a.sum(b)))
        },
        DyadicVerb::Times => if a.rows != b.rows || a.cols != b.cols {
            Err(ErrorModel::DimensionMismatch)
        } else {
            Ok(ValueModel::Matrix(a.entrywise_product(b)))
        },
    }
}

/// The value of an expression in an environment, with `depth` nested
/// function applications still allowed.
///
/// Literals are their values, a name is what it is bound to, an operator
/// needs matrix operands, the left one looked at first. A node that is no
/// expression has no value.
pub open spec fn eval(node: NodeModel, env: Map<Seq<char>, ValueModel>, depth: nat) -> Result<
    ValueModel,
    ErrorModel,
>
    decreases depth, node, 0nat,
{
    match node {
        NodeModel::Integer(i) => Ok(ValueModel::Integer(i)),
        NodeModel::Double(d) => Ok(ValueModel::Double(d)),
        NodeModel::Ident(name) => lookup(env, name),
        NodeModel::Matrix(rows) => match construct(rows) {
            Ok(m) => Ok(ValueModel::Matrix(m)),
            Err(e) => Err(e),
        },
        NodeModel::MonadicOp { verb, expr } => match eval(*expr, env, depth) {
            Ok(operand) => monadic_result(verb, operand),
            Err(e) => Err(e),
        },
        NodeModel::DyadicOp { verb, lhs, rhs } => match eval(*lhs, env, depth) {
            Ok(ValueModel::Matrix(a)) => match eval(*rhs, env, depth) {
                Ok(ValueModel::Matrix(b)) => dyadic_result(verb, a, b),
                Ok(_) => Err(not_a_matrix(Operator::Dyadic(verb))),
                Err(e) => Err(e),
            },
            Ok(_) => Err(not_a_matrix(Operator::Dyadic(verb))),
            Err(e) => Err(e),
        },
        NodeModel::App(name, args) => apply(name, args, env, depth),
        _ => Err(ErrorModel::ParseFailure),
    }
}

/// The call scope after the first `k` arguments are bound: each argument is
/// evaluated in the scope that the arguments before it have extended, and
/// bound to the parameter at its position.
pub open spec fn bind(
    params: Seq<NodeModel>,
    args: Seq<NodeModel>,
    k: nat,
    scope: Map<Seq<char>, ValueModel>,
    depth: nat,
) -> Result<Map<Seq<char>, ValueModel>, ErrorModel>
    decreases depth, args, k,
{
    if k == 0 || k > args.len() {
        Ok(scope)
    } else {
        match bind(params, args, (k - 1) as nat, scope, depth) {
            Err(e) => Err(e),
            Ok(bound) => match params[k - 1] {
                NodeModel::Ident(alias) => match eval(args[k - 1], bound, depth) {
                    Ok(value) => Ok(bound.insert(alias, value)),
                    Err(e) => Err(e),
                },
                _ => Err(ErrorModel::ParseFailure),
            },
        }
    }
}

/// The call scope after the first `k` statements of a body have run: an
/// assignment binds the value of its expression, a declaration binds the
/// function, and nothing else may stand there.
pub open spec fn run_body(
    body: Seq<NodeModel>,
    k: nat,
    scope: Map<Seq<char>, ValueModel>,
    depth: nat,
) -> Result<Map<Seq<char>, ValueModel>, ErrorModel>
    decreases depth, body, k,
{
    if k == 0 || k > body.len() {
        Ok(scope)
    } else {
        match run_body(body, (k - 1) as nat, scope, depth) {
            Err(e) => Err(e),
            Ok(before) => match body[k - 1] {
                NodeModel::Assignment { ident, expr } => match eval(*expr, before, depth) {
                    Ok(value) => Ok(before.insert(ident, value)),
                    Err(e) => Err(e),
                },
                NodeModel::Fun(name, params, inner) => Ok(
                    before.insert(name, ValueModel::Fun(name, params, inner)),
                ),
                _ => Err(ErrorModel::InvalidFunctionBody),
            },
        }
    }
}

/// What the last statement of a body returns from the scope that the
/// statements before it have left.
pub open spec fn body_result(body: Seq<NodeModel>, scope: Map<Seq<char>, ValueModel>) -> Result<
    ValueModel,
    ErrorModel,
> {
    if body.len() == 0 {
        Err(ErrorModel::InvalidReturnStatement)
    } else {
        match body.last() {
            NodeModel::Ident(name) => lookup(scope, name),
            _ => Err(ErrorModel::InvalidReturnStatement),
        }
    }
}

/// The value of applying the function bound to `name` to `args`.
///
/// The name must be bound to a function and the number of arguments must be
/// that of its parameters. The call scope starts as a copy of `env`; the
/// arguments are bound from left to right, the body runs one level deeper,
/// and its last statement, a name, gives the result.
pub open spec fn apply(
    name: Seq<char>,
    args: Seq<NodeModel>,
    env: Map<Seq<char>, ValueModel>,
    depth: nat,
) -> Result<ValueModel, ErrorModel>
    decreases depth, args, args.len() + 1,
{
    if !env.contains_key(name) {
        Err(ErrorModel::UndefinedFunction(name))
    } else {
        match env[name] {
            ValueModel::Fun(_, params, body) => if args.len() != params.len() {
                Err(ErrorModel::ArityMismatch { expected: params.len(), found: args.len() })
            } else if depth == 0 {
                Err(ErrorModel::CallDepthExceeded)
            } else {
                match bind(params, args, args.len(), env, depth) {
                    Err(e) => Err(e),
                    Ok(scope) => match run_body(
                        body,
                        if body.len() > 0 {
                            (body.len() - 1) as nat
                        } else {
                            0
                        },
                        scope,
                        (depth - 1) as nat,
                    ) {
                        Err(e) => Err(e),
                        Ok(last) => body_result(body, last),
                    },
                }
            },
            _ => Err(ErrorModel::UndefinedFunction(name)),
        }
    }
}

/// Applying a name that the environment does not bind to a function fails
/// with `UndefinedFunction`, whatever the arguments are.
pub proof fn lemma_undeclared_function(
    name: Seq<char>,
    args: Seq<NodeModel>,
    env: Map<Seq<char>, ValueModel>,
    depth: nat,
)
    requires
        !env.contains_key(name) || !(env[name] is Fun),
    ensures
        apply(name, args, env, depth) == Err::<ValueModel, ErrorModel>(
            ErrorModel::UndefinedFunction(name),
        ),
{
}

/// Applying a declared function to a number of arguments other than that of
/// its parameters fails with `ArityMismatch`, which tells both numbers.
pub proof fn lemma_wrong_arity(
    name: Seq<char>,
    args: Seq<NodeModel>,
    env: Map<Seq<char>, ValueModel>,
    depth: nat,
)
    requires
        env.contains_key(name),
        env[name] is Fun,
        env[name]->Fun_1.len() != args.len(),
    ensures
        apply(name, args, env, depth) == Err::<ValueModel, ErrorModel>(
            ErrorModel::ArityMismatch { expected: env[name]->Fun_1.len(), found: args.len() },
        ),
{
}

/// Inverting a square matrix whose determinant is zero fails with
/// `SingularMatrix`: no matrix comes back, so none with an infinity or a NaN
/// from a division by that zero.
pub proof fn lemma_singular_has_no_inverse(m: MatrixModel)
    requires
        m.rows == m.cols,
        m.det().spec_is_zero(),
    ensures
        monadic_result(MonadicVerb::Inverse, ValueModel::Matrix(m)) == Err::<
            ValueModel,
            ErrorModel,
        >(ErrorModel::SingularMatrix),
{
}

/// Once binding has failed, it has failed for good.
pub proof fn lemma_bind_failure_stays(
    params: Seq<NodeModel>,
    args: Seq<NodeModel>,
    k: nat,
    n: nat,
    scope: Map<Seq<char>, ValueModel>,
    depth: nat,
)
    requires
        k <= n <= args.len(),
        bind(params, args, k, scope, depth) is Err,
    ensures
        bind(params, args, n, scope, depth) == bind(params, args, k, scope, depth),
    decreases n - k,
{
    if k < n {
        lemma_bind_failure_stays(params, args, k, (n - 1) as nat, scope, depth);
    }
}

/// Once a body has failed, it has failed for good.
pub proof fn lemma_body_failure_stays(
    body: Seq<NodeModel>,
    k: nat,
    n: nat,
    scope: Map<Seq<char>, ValueModel>,
    depth: nat,
)
    requires
        k <= n <= body.len(),
        run_body(body, k, scope, depth) is Err,
    ensures
        run_body(body, n, scope, depth) == run_body(body, k, scope, depth),
    decreases n - k,
{
    if k < n {
        lemma_body_failure_stays(body, k, (n - 1) as nat, scope, depth);
    }
}

/// The value bound to a name.
fn get_value(map: &Env, key: &String) -> (r: Result<LalaType, LalaError>)
    ensures
        value_result(r) == lookup(map@, key@),
{
    match map.get(key) {
        Some(value) => Ok(value.clone()),
        None => Err(LalaError::UndefinedVariable(key.clone())),
    }
}

/// Applies a unary operator to a value.
fn apply_monadic(verb: MonadicVerb, operand: &LalaType) -> (r: Result<LalaType, LalaError>)
    ensures
        value_result(r) == monadic_result(verb, operand@),
{
    let matrix = match operand {
        LalaType::Matrix(m) => m,
        _ => {
            return Err(
                LalaError::TypeMismatch {
                    expected: ValueKind::Matrix,
                    op: Operator::Monadic(verb),
                },
            );
        },
    };
    match verb {
        MonadicVerb::Inverse => match matrix.inverse() {
            Ok(result) => Ok(LalaType::Matrix(result)),
            Err(e) => Err(e),
        },
        MonadicVerb::Rank => {
            if matrix.rows() > 0x7fff_ffff {
                Err(LalaError::DimensionMismatch)
            } else {
                Ok(LalaType::Integer(matrix.rank()))
            }
        },
        MonadicVerb::RREF => Ok(LalaType::Matrix(matrix.rref())),
        MonadicVerb::Transpose => Ok(LalaType::Matrix(matrix.transpose())),
        MonadicVerb::Determinant => match matrix.det() {
            Ok(result) => Ok(LalaType::Double(result)),
            Err(e) => Err(e),
        },
    }
}

/// Applies a binary operator to two matrices.
fn apply_dyadic(verb: DyadicVerb, left: &Matrix, right: Matrix) -> (r: Result<LalaType, LalaError>)
    ensures
        value_result(r) == dyadic_result(verb, left@, right@),
{
    let ghost a = left@;
    let ghost b = right@;
    proof {
        left.lemma_view_wf();
        right.lemma_view_wf();
    }
    match verb {
        DyadicVerb::Dot => match left.dot(right) {
            Ok(m) => Ok(LalaType::Matrix(m)),
            Err(e) => Err(e),
        },
        DyadicVerb::Plus => {
            let plus = |x: Scalar, y: Scalar| -> (z: Scalar)
                ensures
                    z == x.spec_add(y),
                {
                    x.add(y)
                };
            match left.combine(right, plus) {
                Ok(m) => {
                    proof {
                        let expected = a.sum(b);
                        assert forall|r: int, c: int| 0 <= r < m@.rows && 0 <= c < m@.cols implies m@.cells[r][c]
                            == expected.cells[r][c] by {
                            assert(call_ensures(plus, (a.cells[r][c], b.cells[r][c]), m@.cells[r][c]));
                        }
                        m@.lemma_ext(expected);
                    }
                    Ok(LalaType::Matrix(m))
                },
                Err(e) => Err(e),
            }
        },
        DyadicVerb::Times => {
            let times = |x: Scalar, y: Scalar| -> (z: Scalar)
                ensures
                    z == x.spec_mul(y),
                {
                    x.mul(y)
                };
            match left.combine(right, times) {
                Ok(m) => {
                    proof {
                        let expected = a.entrywise_product(b);
                        assert forall|r: int, c: int| 0 <= r < m@.rows && 0 <= c < m@.cols implies m@.cells[r][c]
                            == expected.cells[r][c] by {
                            assert(call_ensures(times, (a.cells[r][c], b.cells[r][c]), m@.cells[r][c]));
                        }
                        m@.lemma_ext(expected);
                    }
                    Ok(LalaType::Matrix(m))
                },
                Err(e) => Err(e),
            }
        },
    }
}

/// Evaluates an expression.
fn eval_expr(env: &Env, expr: &AstNode, depth: usize) -> (r: Result<LalaType, LalaError>)
    ensures
        value_result(r) == eval(expr@, env@, depth as nat),
    decreases depth, expr, 1nat,
{
    match expr {
        AstNode::Integer(i) => Ok(LalaType::Integer(*i)),
        AstNode::DoublePrecisionFloat(d) => Ok(LalaType::Double(*d)),
        AstNode::Ident(id) => get_value(env, id),
        AstNode::MonadicOp { verb, expr: operand } => eval_monadic_op(operand, env, verb, depth),
        AstNode::DyadicOp { verb, lhs, rhs } => eval_dyadic_op(
            lhs,
            rhs,
            env,
            verb,
            depth,
            Ghost(*expr),
        ),
        AstNode::Matrix(m) => match construct_matrix(m) {
            Ok(matrix) => Ok(LalaType::Matrix(matrix)),
            Err(e) => Err(e),
        },
        AstNode::App(app) => interp_app(&app.0, &app.1, env, depth),
        _ => Err(LalaError::ParseFailure),
    }
}

/// Evaluates the operand of a unary operator and applies the operator.
fn eval_monadic_op(expr: &AstNode, env: &Env, verb: &MonadicVerb, depth: usize) -> (r: Result<
    LalaType,
    LalaError,
>)
    ensures
        value_result(r) == match eval(expr@, env@, depth as nat) {
            Ok(operand) => monadic_result(*verb, operand),
            Err(e) => Err(e),
        },
    decreases depth, expr, 2nat,
{
    match eval_expr(env, expr, depth) {
        Ok(operand) => apply_monadic(*verb, &operand),
        Err(e) => Err(e),
    }
}

/// Evaluates the operands of a binary operator, the left one first, and
/// applies the operator.
fn eval_dyadic_op(
    lhs: &AstNode,
    rhs: &AstNode,
    env: &Env,
    verb: &DyadicVerb,
    depth: usize,
    Ghost(parent): Ghost<AstNode>,
) -> (r: Result<LalaType, LalaError>)
    requires
        decreases_to!(parent => *lhs),
        decreases_to!(parent => *rhs),
    ensures
        value_result(r) == match eval(lhs@, env@, depth as nat) {
            Ok(ValueModel::Matrix(a)) => match eval(rhs@, env@, depth as nat) {
                Ok(ValueModel::Matrix(b)) => dyadic_result(*verb, a, b),
                Ok(_) => Err(not_a_matrix(Operator::Dyadic(*verb))),
                Err(e) => Err(e),
            },
            Ok(_) => Err(not_a_matrix(Operator::Dyadic(*verb))),
            Err(e) => Err(e),
        },
    decreases depth, parent, 0nat,
{
    let leftside = match eval_expr(env, lhs, depth) {
        Ok(LalaType::Matrix(left)) => left,
        Ok(_) => {
            return Err(
                LalaError::TypeMismatch {
                    expected: ValueKind::Matrix,
                    op: Operator::Dyadic(*verb),
                },
            );
        },
        Err(e) => {
            return Err(e);
        },
    };
    let rightside = match eval_expr(env, rhs, depth) {
        Ok(LalaType::Matrix(right)) => right,
        Ok(_) => {
            return Err(
                LalaError::TypeMismatch {
                    expected: ValueKind::Matrix,
                    op: Operator::Dyadic(*verb),
                },
            );
        },
        Err(e) => {
            return Err(e);
        },
    };
    apply_dyadic(*verb, &leftside, rightside)
}

/// Binds a name to the value of an expression.
fn eval_assignment(ident: &String, expr: &AstNode, env: &mut Env, depth: usize) -> (r: Result<
    (),
    LalaError,
>)
    ensures
        match r {
            Ok(_) => eval(expr@, old(env)@, depth as nat) is Ok && final(env)@ == old(env)@.insert(
                ident@,
                eval(expr@, old(env)@, depth as nat)->Ok_0,
            ),
            Err(e) => eval(expr@, old(env)@, depth as nat) == Err::<ValueModel, ErrorModel>(e@)
                && final(env)@ == old(env)@,
        },
    decreases depth, expr, 2nat,
{
    match eval_expr(env, expr, depth) {
        Ok(value) => {
            env.insert(ident.clone(), value);
            Ok(())
        },
        Err(e) => Err(e),
    }
}

/// Declares a function: binds its name to it without looking at its body.
fn interp_fun(name: &String, params: &Vec<AstNode>, body: &Vec<AstNode>, env: &mut Env)
    ensures
        final(env)@ == old(env)@.insert(
            name@,
            ValueModel::Fun(name@, node_models(*params), node_models(*body)),
        ),
{
    env.insert(
        name.clone(),
        LalaType::Fun((name.clone(), clone_nodes(params), clone_nodes(body))),
    );
}

/// Applies the function bound to `name` to the arguments `params`.
fn interp_app(name: &String, params: &Vec<AstNode>, env: &Env, depth: usize) -> (r: Result<
    LalaType,
    LalaError,
>)
    ensures
        value_result(r) == apply(name@, node_models(*params), env@, depth as nat),
    decreases depth, params, 0nat,
{
    let ghost args = node_models(*params);
    let (aliases, body) = match env.get(name) {
        Some(LalaType::Fun(fun)) => (&fun.1, &fun.2),
        _ => {
            return Err(LalaError::UndefinedFunction(name.clone()));
        },
    };
    let ghost formals = node_models(*aliases);
    let ghost statements = node_models(*body);
    let ghost declared = env@[name@]->Fun_0;
    assert(env@[name@] == ValueModel::Fun(declared, formals, statements));
    if params.len() != aliases.len() {
        return Err(LalaError::ArityMismatch { expected: aliases.len(), found: params.len() });
    }
    if depth == 0 {
        return Err(LalaError::CallDepthExceeded);
    }
    let mut function_scope = env.clone();
    let count: usize = params.len();
    let mut i: usize = 0;
    while i < count
        invariant
            i <= count,
            count == params.len(),
            count == aliases.len(),
            depth > 0,
            env@.contains_key(name@),
            env@[name@] == ValueModel::Fun(declared, formals, statements),
            args == node_models(*params),
            formals == node_models(*aliases),
            bind(formals, args, i as nat, env@, depth as nat) == Ok::<
                Map<Seq<char>, ValueModel>,
                ErrorModel,
            >(function_scope@),
        decreases count - i,
    {
        let alias = match &aliases[i] {
            AstNode::Ident(alias) => alias.clone(),
            _ => {
                proof {
                    assert(bind(formals, args, (i + 1) as nat, env@, depth as nat) is Err);
                    lemma_bind_failure_stays(
                        formals,
                        args,
                        (i + 1) as nat,
                        count as nat,
                        env@,
                        depth as nat,
                    );
                }
                return Err(LalaError::ParseFailure);
            },
        };
        assert(decreases_to!(*params => params[i as int]));
        let provided = match eval_expr(&function_scope, &params[i], depth) {
            Ok(value) => value,
            Err(e) => {
                proof {
                    assert(bind(formals, args, (i + 1) as nat, env@, depth as nat) is Err);
                    lemma_bind_failure_stays(
                        formals,
                        args,
                        (i + 1) as nat,
                        count as nat,
                        env@,
                        depth as nat,
                    );
                }
                return Err(e);
            },
        };
        function_scope.insert(alias, provided);
        i += 1;
    }
    let ghost bound = function_scope@;
    let length: usize = body.len();
    let before_last: usize = if length > 0 {
        length - 1
    } else {
        0
    };
    let inner: usize = depth - 1;
    let mut k: usize = 0;
    while k < before_last
        invariant
            k <= before_last,
            before_last <= body.len(),
            length == body.len(),
            before_last == (if length > 0 {
                length - 1
            } else {
                0
            }),
            inner + 1 == depth,
            env@.contains_key(name@),
            env@[name@] == ValueModel::Fun(declared, formals, statements),
            args == node_models(*params),
            args.len() == formals.len(),
            bind(formals, args, args.len(), env@, depth as nat) == Ok::<
                Map<Seq<char>, ValueModel>,
                ErrorModel,
            >(bound),
            statements == node_models(*body),
            run_body(statements, k as nat, bound, inner as nat) == Ok::<
                Map<Seq<char>, ValueModel>,
                ErrorModel,
            >(function_scope@),
        decreases before_last - k,
    {
        match &body[k] {
            AstNode::Assignment { ident, expr } => {
                match eval_assignment(ident, expr, &mut function_scope, inner) {
                    Ok(_) => (),
                    Err(e) => {
                        proof {
                            assert(run_body(statements, (k + 1) as nat, bound, inner as nat) is Err);
                            lemma_body_failure_stays(
                                statements,
                                (k + 1) as nat,
                                before_last as nat,
                                bound,
                                inner as nat,
                            );
                        }
                        return Err(e);
                    },
                }
            },
            AstNode::Fun(fun) => {
                interp_fun(&fun.0, &fun.1, &fun.2, &mut function_scope);
            },
            _ => {
                proof {
                    assert(run_body(statements, (k + 1) as nat, bound, inner as nat) is Err);
                    lemma_body_failure_stays(
                        statements,
                        (k + 1) as nat,
                        before_last as nat,
                        bound,
                        inner as nat,
                    );
                }
                return Err(LalaError::InvalidFunctionBody);
            },
        }
        k += 1;
    }
    if length == 0 {
        return Err(LalaError::InvalidReturnStatement);
    }
    match &body[length - 1] {
        AstNode::Ident(id) => get_value(&function_scope, id),
        _ => Err(LalaError::InvalidReturnStatement),
    }
}

/// What a run of statements last made visible.
#[derive(Debug)]
pub enum Visible {
    /// Nothing yet.
    Nothing,
    /// The value of a statement.
    Value(LalaType),
    /// The name of a function that was declared.
    Declared(String),
    /// A statement that the driver does not run, which ended the run.
    Unrecognized(AstNode),
}

/// What a `Visible` says, as a model.
pub enum VisibleModel {
    Nothing,
    Value(ValueModel),
    Declared(Seq<char>),
    Unrecognized(NodeModel),
}

impl View for Visible {
    type V = VisibleModel;

    open spec fn view(&self) -> VisibleModel {
        match self {
            Visible::Nothing => VisibleModel::Nothing,
            Visible::Value(value) => VisibleModel::Value(value@),
            Visible::Declared(name) => VisibleModel::Declared(name@),
            Visible::Unrecognized(node) => VisibleModel::Unrecognized(node@),
        }
    }
}

/// How a run of statements ended.
#[derive(Debug)]
pub enum Outcome {
    /// The run is over; this is its visible result.
    Finished(Visible),
    /// The statement at `index` is a command, which the caller runs. The
    /// run goes on behind it, from `visible`.
    Command { index: usize, visible: Visible },
}

/// What an `Outcome` says, as a model.
pub enum OutcomeModel {
    Finished(VisibleModel),
    Command { index: nat, visible: VisibleModel },
}

impl View for Outcome {
    type V = OutcomeModel;

    open spec fn view(&self) -> OutcomeModel {
        match self {
            Outcome::Finished(visible) => OutcomeModel::Finished(visible@),
            Outcome::Command { index, visible } => OutcomeModel::Command {
                index: *index as nat,
                visible: visible@,
            },
        }
    }
}

/// The environment that a run leaves and how the run ended.
pub struct RunModel {
    pub env: Map<Seq<char>, ValueModel>,
    pub result: Result<OutcomeModel, ErrorModel>,
}

/// The result of a run, as a model.
pub open spec fn outcome_result(r: Result<Outcome, LalaError>) -> Result<OutcomeModel, ErrorModel> {
    match r {
        Ok(outcome) => Ok(outcome@),
        Err(e) => Err(e@),
    }
}

/// The visible result after a statement whose value shows only when output
/// is not suppressed.
pub open spec fn shown(
    suppress_output: bool,
    visible: VisibleModel,
    value: ValueModel,
) -> VisibleModel {
    if suppress_output {
        visible
    } else {
        VisibleModel::Value(value)
    }
}

/// Runs the statements from index `i` on, one after the other.
///
/// An assignment binds its value; a bare operator expression is evaluated;
/// both show their value unless output is suppressed. A bare name and a
/// function application always show their value, and a declaration shows
/// the name it declared. The first failure ends the run and leaves the
/// environment as the statements before it made it. A command hands the run
/// to the caller. Any other statement ends the run and is itself the visible
/// result.
pub open spec fn run(
    statements: Seq<NodeModel>,
    i: nat,
    env: Map<Seq<char>, ValueModel>,
    visible: VisibleModel,
    suppress_output: bool,
) -> RunModel
    decreases statements.len() - i,
{
    if i >= statements.len() {
        RunModel { env, result: Ok(OutcomeModel::Finished(visible)) }
    } else {
        match statements[i as int] {
            NodeModel::Assignment { ident, expr } => match eval(*expr, env, MAX_CALL_DEPTH as nat) {
                Ok(value) => run(
                    statements,
                    i + 1,
                    env.insert(ident, value),
                    shown(suppress_output, visible, value),
                    suppress_output,
                ),
                Err(e) => RunModel { env, result: Err(e) },
            },
            NodeModel::MonadicOp { verb, expr } => match eval(
                statements[i as int],
                env,
                MAX_CALL_DEPTH as nat,
            ) {
                Ok(value) => run(
                    statements,
                    i + 1,
                    env,
                    shown(suppress_output, visible, value),
                    suppress_output,
                ),
                Err(e) => RunModel { env, result: Err(e) },
            },
            NodeModel::DyadicOp { verb, lhs, rhs } => match eval(
                statements[i as int],
                env,
                MAX_CALL_DEPTH as nat,
            ) {
                Ok(value) => run(
                    statements,
                    i + 1,
                    env,
                    shown(suppress_output, visible, value),
                    suppress_output,
                ),
                Err(e) => RunModel { env, result: Err(e) },
            },
            NodeModel::Ident(name) => match lookup(env, name) {
                Ok(value) => run(
                    statements,
                    i + 1,
                    env,
                    VisibleModel::Value(value),
                    suppress_output,
                ),
                Err(e) => RunModel { env, result: Err(e) },
            },
            NodeModel::Fun(name, params, body) => run(
                statements,
                i + 1,
                env.insert(name, ValueModel::Fun(name, params, body)),
                VisibleModel::Declared(name),
                suppress_output,
            ),
            NodeModel::App(name, args) => match apply(name, args, env, MAX_CALL_DEPTH as nat) {
                Ok(value) => run(
                    statements,
                    i + 1,
                    env,
                    VisibleModel::Value(value),
                    suppress_output,
                ),
                Err(e) => RunModel { env, result: Err(e) },
            },
            NodeModel::Command(_, _) => RunModel {
                env,
                result: Ok(OutcomeModel::Command { index: i, visible }),
            },
            _ => RunModel {
                env,
                result: Ok(OutcomeModel::Finished(VisibleModel::Unrecognized(statements[i as int]))),
            },
        }
    }
}

/// Goes on with a run of statements at index `start`, in `env`, from the
/// visible result `visible`.
pub fn resume(
    ast: &Vec<AstNode>,
    start: usize,
    visible: Visible,
    env: &mut Env,
    suppress_output: bool,
) -> (r: Result<Outcome, LalaError>)
    ensures
        outcome_result(r) == run(
            node_models(*ast),
            start as nat,
            old(env)@,
            visible@,
            suppress_output,
        ).result,
        final(env)@ == run(
            node_models(*ast),
            start as nat,
            old(env)@,
            visible@,
            suppress_output,
        ).env,
{
    let ghost statements = node_models(*ast);
    let ghost goal = run(statements, start as nat, env@, visible@, suppress_output);
    let mut result = visible;
    let mut i: usize = start;
    while i < ast.len()
        invariant
            statements == node_models(*ast),
            goal == run(statements, start as nat, old(env)@, visible@, suppress_output),
            run(statements, i as nat, env@, result@, suppress_output) == goal,
        decreases ast.len() - i,
    {
        match &ast[i] {
            AstNode::Assignment { ident, expr } => {
                match eval_assignment(ident, expr, env, MAX_CALL_DEPTH) {
                    Ok(_) => (),
                    Err(e) => {
                        return Err(e);
                    },
                }
                if !suppress_output {
                    result = match env.get(ident) {
                        Some(value) => Visible::Value(value.clone()),
                        None => result,
                    };
                }
            },
            AstNode::MonadicOp { verb, expr } => {
                let value = match eval_monadic_op(expr, env, verb, MAX_CALL_DEPTH) {
                    Ok(value) => value,
                    Err(e) => {
                        return Err(e);
                    },
                };
                if !suppress_output {
                    result = Visible::Value(value);
                }
            },
            AstNode::DyadicOp { verb, lhs, rhs } => {
                let value = match eval_dyadic_op(
                    lhs,
                    rhs,
                    env,
                    verb,
                    MAX_CALL_DEPTH,
                    Ghost(ast[i as int]),
                ) {
                    Ok(value) => value,
                    Err(e) => {
                        return Err(e);
                    },
                };
                if !suppress_output {
                    result = Visible::Value(value);
                }
            },
            AstNode::Ident(var) => {
                let value = match get_value(env, var) {
                    Ok(value) => value,
                    Err(e) => {
                        return Err(e);
                    },
                };
                result = Visible::Value(value);
            },
            AstNode::Fun(fun) => {
                interp_fun(&fun.0, &fun.1, &fun.2, env);
                result = Visible::Declared(fun.0.clone());
            },
            AstNode::App(app) => {
                let value = match interp_app(&app.0, &app.1, env, MAX_CALL_DEPTH) {
                    Ok(value) => value,
                    Err(e) => {
                        return Err(e);
                    },
                };
                result = Visible::Value(value);
            },
            AstNode::Command(_) => {
                return Ok(Outcome::Command { index: i, visible: result });
            },
            bad_line => {
                return Ok(Outcome::Finished(Visible::Unrecognized(bad_line.clone())));
            },
        }
        i += 1;
    }
    Ok(Outcome::Finished(result))
}

/// The environment that a run starts in: the one given, or else an empty one.
pub open spec fn initial_env(map: Option<&mut Env>) -> Map<Seq<char>, ValueModel> {
    match map {
        Some(env) => env@,
        None => Map::empty(),
    }
}

/// Runs a sequence of statements from its start. With no environment
/// given, the run has an empty one of its own.
pub fn interp(ast: &Vec<AstNode>, map: Option<&mut Env>, suppress_output: bool) -> (r: Result<
    Outcome,
    LalaError,
>)
    ensures
        outcome_result(r) == run(
            node_models(*ast),
            0,
            initial_env(map),
            VisibleModel::Nothing,
            suppress_output,
        ).result,
        match map {
            Some(env) => final(env)@ == run(
                node_models(*ast),
                0,
                env@,
                VisibleModel::Nothing,
                suppress_output,
            ).env,
            None => true,
        },
{
    match map {
        Some(env) => resume(ast, 0, Visible::Nothing, env, suppress_output),
        None => {
            let mut binding = Env::new();
            resume(ast, 0, Visible::Nothing, &mut binding, suppress_output)
        },
    }
}

} // verus!
