//! The tree-walking interpreter: it evaluates the AST's top-level
//! expressions left to right against a mutable variable environment and
//! accumulates the program's output text.

use crate::parser::expr_debug;
use crate::parser::msg_fn_missing;
use crate::parser::msg_type_mismatch;
use crate::parser::msg_unsupported;
use crate::parser::msg_var_missing;
use crate::parser::expr_debug_v;
use crate::parser::expr_v;
use crate::parser::exprs_v;
use crate::parser::type_check;
use crate::parser::type_check_v;
use crate::parser::BinExpr;
use crate::parser::BinExprV;
use crate::parser::BinOpKind;
use crate::parser::Bool;
use crate::parser::DeclV;
use crate::parser::Expr;
use crate::parser::ExprV;
use crate::parser::FuncCall;
use crate::parser::FuncCallV;
use crate::parser::Type;
use crate::parser::VarMap;
use crate::parser::VarV;
use crate::parser::Variable;
use crate::parser::VariableDeclaration;
use crate::utils::dec_i64;
use crate::utils::i64_to_string;
use crate::utils::ErrV;
use crate::utils::ErrorType;
use vstd::prelude::*;

verus! {

broadcast use
    vstd::std_specs::vec::axiom_vec_index_decreases,
    vstd::seq::axiom_seq_index_decreases;

/// The absolute value of an integer.
pub open spec fn abs_int(n: int) -> int {
    if n < 0 {
        -n
    } else {
        n
    }
}

/// Truncating 64-bit signed division, wrapping on the one overflowing
/// case (`i64::MIN / -1`). The divisor must not be zero; the evaluator
/// reports division by zero before dividing.
pub open spec fn div_trunc_i64(a: i64, b: i64) -> i64 {
    if a == i64::MIN && b == -1 {
        i64::MIN
    } else {
        let q = abs_int(a as int) / abs_int(b as int);
        if (a < 0) != (b < 0) {
            (-q) as i64
        } else {
            q as i64
        }
    }
}

/// What a binary operator computes on two 64-bit values: wrapping
/// addition, subtraction and multiplication, and truncating division.
pub open spec fn apply_bin_op(k: BinOpKind, a: i64, b: i64) -> i64 {
    match k {
        BinOpKind::Plus => a.wrapping_add(b),
        BinOpKind::Minus => a.wrapping_sub(b),
        BinOpKind::Multiply => a.wrapping_mul(b),
        BinOpKind::Divide => div_trunc_i64(a, b),
    }
}

/// The number an operand of a binary expression evaluates to: a literal, a
/// number-valued variable, or a nested binary expression; anything else is
/// an error.
pub open spec fn eval_operand_v(env: Map<Seq<char>, VarV>, e: ExprV) -> Result<i64, ErrV>
    decreases e, 0int,
{
    match e {
        ExprV::BinExpr(b) => eval_bin_v(env, *b),
        ExprV::Number(n) => Ok(n),
        ExprV::Identifier(id) => if env.contains_key(id) {
            match env[id] {
                VarV::Number(n) => Ok(n),
                _ => Err(ErrV::Generic("Cannot add variable which is not a number"@)),
            }
        } else {
            Err(ErrV::SyntaxError(msg_var_missing(id)))
        },
        _ => Err(ErrV::Generic("Cannot add variable which is not a number"@)),
    }
}

/// The number a binary expression evaluates to: both operands first, left
/// before right, then the operator; dividing by zero is reported as an
/// error rather than faulting.
pub open spec fn eval_bin_v(env: Map<Seq<char>, VarV>, b: BinExprV) -> Result<i64, ErrV>
    decreases b, 1int,
{
    match eval_operand_v(env, b.lhs) {
        Ok(l) => match eval_operand_v(env, b.rhs) {
            Ok(r) => if b.kind is Divide && r == 0 {
                Err(ErrV::Generic("Division by zero"@))
            } else {
                Ok(apply_bin_op(b.kind, l, r))
            },
            Err(e) => Err(e),
        },
        Err(e) => Err(e),
    }
}

/// The text a stored value prints as: a number as decimal text, a string
/// as itself, a boolean as its literal text.
pub open spec fn var_display_v(v: VarV) -> Seq<char> {
    match v {
        VarV::Number(n) => dec_i64(n as int),
        VarV::StringLiteral(s) => s,
        VarV::Bool(b) => match b {
            Bool::True => "true"@,
            Bool::False => "false"@,
        },
    }
}

/// The output a `print` call produces from its arguments from index `i` on,
/// with a space between arguments and a final newline, together with the
/// error that stopped it, if any: output already produced stays produced.
pub open spec fn print_args_v(env: Map<Seq<char>, VarV>, args: Seq<ExprV>, i: int) -> (
    Seq<char>,
    Option<ErrV>,
)
    decreases args, args.len() - i, 0int,
{
    if i < 0 || i >= args.len() {
        (seq!['\n'], None)
    } else {
        let sep: Seq<char> = if i != args.len() - 1 {
            " "@
        } else {
            Seq::empty()
        };
        match args[i] {
            ExprV::FuncCall(fc) => {
                let (o, err) = func_call_v(env, fc);
                if err is Some {
                    (o, err)
                } else {
                    let (ro, re) = print_args_v(env, args, i + 1);
                    (o + sep + ro, re)
                }
            },
            ExprV::BinExpr(b) => match eval_bin_v(env, *b) {
                Ok(n) => {
                    let (ro, re) = print_args_v(env, args, i + 1);
                    (dec_i64(n as int) + sep + ro, re)
                },
                Err(e) => (Seq::empty(), Some(e)),
            },
            ExprV::Number(n) => {
                let (ro, re) = print_args_v(env, args, i + 1);
                (dec_i64(n as int) + sep + ro, re)
            },
            ExprV::Identifier(id) => if env.contains_key(id) {
                let (ro, re) = print_args_v(env, args, i + 1);
                (var_display_v(env[id]) + sep + ro, re)
            } else {
                (Seq::empty(), Some(ErrV::SyntaxError(msg_var_missing(id))))
            },
            ExprV::StringLiteral(s) => {
                let (ro, re) = print_args_v(env, args, i + 1);
                (s + sep + ro, re)
            },
            _ => (Seq::empty(), Some(ErrV::Generic("Invalid argument to print"@))),
        }
    }
}

/// The output a function call produces: only the `print` builtin is
/// recognized; a nested `print` argument runs for its output and yields
/// no value.
pub open spec fn func_call_v(env: Map<Seq<char>, VarV>, fc: FuncCallV) -> (Seq<char>, Option<ErrV>)
    decreases fc, 0int, 0int,
{
    if fc.name == "print"@ {
        print_args_v(env, fc.arguments, 0)
    } else {
        (Seq::empty(), Some(ErrV::Generic(msg_fn_missing(fc.name))))
    }
}

/// The environment after a variable declaration: the value expression is
/// checked against the declared type if one is present, evaluated, and the
/// binding inserted, overwriting any prior binding of the name.
pub open spec fn run_decl_v(env: Map<Seq<char>, VarV>, d: DeclV) -> Result<
    Map<Seq<char>, VarV>,
    ErrV,
> {
    if d.typ is Some && !type_check_v(d.typ->Some_0, d.value) {
        Err(ErrV::Generic(msg_type_mismatch(d.typ->Some_0)))
    } else {
        match d.value {
            ExprV::Number(n) => Ok(env.insert(d.identifier, VarV::Number(n))),
            ExprV::StringLiteral(s) => Ok(env.insert(d.identifier, VarV::StringLiteral(s))),
            ExprV::BinExpr(b) => match eval_bin_v(env, *b) {
                Ok(n) => Ok(env.insert(d.identifier, VarV::Number(n))),
                Err(e) => Err(e),
            },
            _ => Err(ErrV::Generic("Can only store strings and number in variables"@)),
        }
    }
}

/// What one top-level expression does: its output, the environment after
/// it, and the error stopping the run, if any. A bare identifier at the
/// top level prints its value (useful in an interactive session); looking
/// one up that is not bound is reported as an error rather than a fault.
pub open spec fn run_node_v(env: Map<Seq<char>, VarV>, node: ExprV) -> (
    Seq<char>,
    Map<Seq<char>, VarV>,
    Option<ErrV>,
) {
    match node {
        ExprV::FuncCall(fc) => {
            let (o, e) = func_call_v(env, fc);
            (o, env, e)
        },
        ExprV::VariableDeclaration(d) => match run_decl_v(env, *d) {
            Ok(env2) => (Seq::empty(), env2, None),
            Err(e) => (Seq::empty(), env, Some(e)),
        },
        ExprV::Identifier(id) => if env.contains_key(id) {
            (var_display_v(env[id]) + seq!['\n'], env, None)
        } else {
            (Seq::empty(), env, Some(ErrV::SyntaxError(msg_var_missing(id))))
        },
        _ => (Seq::empty(), env, Some(ErrV::Generic(msg_unsupported(node)))),
    }
}

/// What a whole program run does from node `i` on: the concatenated
/// output, the final environment, and the first error, which stops the
/// run but keeps the output and bindings made before it.
pub open spec fn run_v(env: Map<Seq<char>, VarV>, ast: Seq<ExprV>, i: int) -> (
    Seq<char>,
    Map<Seq<char>, VarV>,
    Option<ErrV>,
)
    decreases ast, ast.len() - i,
{
    if i < 0 || i >= ast.len() {
        (Seq::empty(), env, None)
    } else {
        let (o, env2, err) = run_node_v(env, ast[i]);
        if err is Some {
            (o, env2, err)
        } else {
            let (ro, env3, re) = run_v(env2, ast, i + 1);
            (o + ro, env3, re)
        }
    }
}

/// Represents an interpreter that processes an abstract syntax tree (AST)
/// and evaluates expressions. Output is accumulated in `output` so that a
/// caller can hand it on; in an interactive session the same instance,
/// with its environment, lives across inputs.
pub struct Interpreter {
    pub ast: Vec<Expr>,
    pub variables: VarMap,
    pub output: String,
}

impl Interpreter {
    /// Creates a new `Interpreter` instance from the provided AST
    pub fn from_ast(ast: Vec<Expr>) -> (r: Interpreter)
        ensures
            r.ast == ast,
            r.variables@ == Map::<Seq<char>, VarV>::empty(),
            r.output@ == Seq::<char>::empty(),
    {
        Interpreter { ast, variables: VarMap::new(), output: String::new() }
    }

    /// Creates a default `Interpreter` instance with an empty AST and no
    /// variables
    pub fn default() -> (r: Interpreter)
        ensures
            r.ast@ == Seq::<Expr>::empty(),
            r.variables@ == Map::<Seq<char>, VarV>::empty(),
            r.output@ == Seq::<char>::empty(),
    {
        Interpreter { ast: Vec::new(), variables: VarMap::new(), output: String::new() }
    }

    /// Retrieves the value of a variable, or reports that it does not
    /// exist.
    fn get_var(&self, ident: &String) -> (r: Result<&Variable, ErrorType>)
        ensures
            match r {
                Ok(v) => self.variables@.contains_key(ident@) && crate::parser::var_v(*v)
                    == self.variables@[ident@],
                Err(e) => !self.variables@.contains_key(ident@) && e@ == ErrV::SyntaxError(
                    msg_var_missing(ident@),
                ),
            },
    {
        match self.variables.get(ident) {
            Some(v) => Ok(v),
            None => {
                let mut m = String::from_str("Variable doesn't exist: `");
                m.append(ident.as_str());
                m.append("`");
                Err(ErrorType::SyntaxError(m))
            },
        }
    }

    /// Evaluates an operand of a binary expression to a number.
    fn eval_operand(&self, operand: &Expr) -> (r: Result<i64, ErrorType>)
        ensures
            match (r, eval_operand_v(self.variables@, expr_v(*operand))) {
                (Ok(n), Ok(m)) => n == m,
                (Err(e), Err(ev)) => e@ == ev,
                _ => false,
            },
        decreases operand, 0int,
    {
        match operand {
            Expr::BinExpr(bin_expr) => self.handle_bin_expr(bin_expr),
            Expr::Number(n) => Ok(*n),
            Expr::Identifier(id) => match self.get_var(id) {
                Ok(v) => match v {
                    Variable::Number(n) => Ok(*n),
                    _ => Err(
                        ErrorType::Generic(
                            String::from_str("Cannot add variable which is not a number"),
                        ),
                    ),
                },
                Err(e) => Err(e),
            },
            _ => Err(
                ErrorType::Generic(String::from_str("Cannot add variable which is not a number")),
            ),
        }
    }

    /// Handles the evaluation of a binary expression, returning the result
    /// of the operation. Addition, subtraction and multiplication wrap on
    /// 64-bit overflow; division truncates, and dividing by zero is a
    /// reported error in this evaluator (the language leaves the choice to
    /// the implementation).
    fn handle_bin_expr(&self, bin_expr: &BinExpr) -> (r: Result<i64, ErrorType>)
        ensures
            match (r, eval_bin_v(
                self.variables@,
                (BinExprV {
                    lhs: expr_v(bin_expr.lhs),
                    rhs: expr_v(bin_expr.rhs),
                    kind: bin_expr.kind,
                }),
            )) {
                (Ok(n), Ok(m)) => n == m,
                (Err(e), Err(ev)) => e@ == ev,
                _ => false,
            },
        decreases bin_expr, 1int,
    {
        let lhs = match self.eval_operand(&bin_expr.lhs) {
            Ok(n) => n,
            Err(e) => {
                return Err(e);
            },
        };
        let rhs = match self.eval_operand(&bin_expr.rhs) {
            Ok(n) => n,
            Err(e) => {
                return Err(e);
            },
        };
        match bin_expr.kind {
            BinOpKind::Plus => Ok(lhs.wrapping_add(rhs)),
            BinOpKind::Minus => Ok(lhs.wrapping_sub(rhs)),
            BinOpKind::Multiply => Ok(lhs.wrapping_mul(rhs)),
            BinOpKind::Divide => {
                if rhs == 0 {
                    return Err(ErrorType::Generic(String::from_str("Division by zero")));
                }
                Ok(div_i64(lhs, rhs))
            },
        }
    }

    /// Handles function calls: only the `print` builtin is implemented.
    fn handle_func_call(&mut self, func_call: &FuncCall) -> (r: Result<(), ErrorType>)
        ensures
            final(self).ast == old(self).ast,
            final(self).variables == old(self).variables,
            ({
                let (o, err) = func_call_v(
                    old(self).variables@,
                    (FuncCallV { name: func_call.name@, arguments: exprs_v(func_call.arguments@) }),
                );
                final(self).output@ == old(self).output@ + o && match (r, err) {
                    (Ok(()), Option::None) => true,
                    (Err(e), Option::Some(ev)) => e@ == ev,
                    _ => false,
                }
            }),
        decreases func_call, 1int, 1int,
    {
        let is_print = func_call.name == String::from_str("print");
        if is_print {
            self.handle_print(func_call)
        } else {
            let mut m = String::from_str("Function `");
            m.append(func_call.name.as_str());
            m.append("` is not implemented");
            proof {
                assert(self.output@ + Seq::<char>::empty() =~= self.output@);
            }
            Err(ErrorType::Generic(m))
        }
    }

    /// Handles the `print` function call: arguments are written
    /// space-separated, a newline follows the last; a nested call runs for
    /// its own output and contributes no value.
    #[verifier::loop_isolation(false)]
    #[verifier::rlimit(50)]
    fn handle_print(&mut self, func_call: &FuncCall) -> (r: Result<(), ErrorType>)
        ensures
            final(self).ast == old(self).ast,
            final(self).variables == old(self).variables,
            ({
                let (o, err) = print_args_v(
                    old(self).variables@,
                    exprs_v(func_call.arguments@),
                    0,
                );
                final(self).output@ == old(self).output@ + o && match (r, err) {
                    (Ok(()), Option::None) => true,
                    (Err(e), Option::Some(ev)) => e@ == ev,
                    _ => false,
                }
            }),
        decreases func_call, 1int, 0int,
    {
        let ghost env = self.variables@;
        let ghost argsv = exprs_v(func_call.arguments@);
        let ghost len0 = self.output@.len();
        let args_count = func_call.arguments.len();
        let mut i: usize = 0;
        proof {
            assert(self.output@.skip(len0 as int) =~= Seq::<char>::empty());
            let (o0, e0) = print_args_v(env, argsv, 0);
            assert(Seq::<char>::empty() + o0 =~= o0);
        }
        while i < args_count
            invariant
                i <= args_count,
                args_count == func_call.arguments@.len(),
                self.ast == old(self).ast,
                self.variables == old(self).variables,
                self.output@.len() >= len0,
                self.output@.take(len0 as int) == old(self).output@,
                ({
                    let (o0, e0) = print_args_v(env, argsv, 0);
                    let (oi, ei) = print_args_v(env, argsv, i as int);
                    o0 == self.output@.skip(len0 as int) + oi && e0 == ei
                }),
            decreases func_call.arguments, args_count - i, 1int,
        {
            let ghost outpre = self.output@;
            let ghost (oi, ei) = print_args_v(env, argsv, i as int);
            let ghost sep_v: Seq<char> = if i as int != argsv.len() - 1 {
                " "@
            } else {
                Seq::<char>::empty()
            };
            proof {
                assert(argsv[i as int] == expr_v(func_call.arguments@[i as int]));
            }
            match &func_call.arguments[i] {
                Expr::FuncCall(fc2) => {
                    match self.handle_func_call(fc2) {
                        Ok(()) => {},
                        Err(e) => {
                            proof {
                                let (no, ne) = func_call_v(
                                    env,
                                    (FuncCallV {
                                        name: fc2.name@,
                                        arguments: exprs_v(fc2.arguments@),
                                    }),
                                );
                                assert(expr_v(func_call.arguments@[i as int])->FuncCall_0.arguments
                                    =~= exprs_v(fc2.arguments@));
                                assert(self.output@.skip(len0 as int) =~= outpre.skip(len0 as int)
                                    + no);
                            }
                            return Err(e);
                        },
                    }
                    proof {
                        let (no, ne) = func_call_v(
                            env,
                            (FuncCallV { name: fc2.name@, arguments: exprs_v(fc2.arguments@) }),
                        );
                        assert(expr_v(func_call.arguments@[i as int])->FuncCall_0.arguments
                            =~= exprs_v(fc2.arguments@));
                        assert(self.output@.skip(len0 as int) =~= outpre.skip(len0 as int) + no);
                    }
                },
                Expr::BinExpr(bin_expr) => {
                    match self.handle_bin_expr(bin_expr) {
                        Ok(n) => {
                            let d = i64_to_string(n);
                            self.output.append(d.as_str());
                            proof {
                                assert(self.output@.skip(len0 as int) =~= outpre.skip(len0 as int)
                                    + dec_i64(n as int));
                            }
                        },
                        Err(e) => {
                            return Err(e);
                        },
                    }
                },
                Expr::Number(n) => {
                    let d = i64_to_string(*n);
                    self.output.append(d.as_str());
                    proof {
                        assert(self.output@.skip(len0 as int) =~= outpre.skip(len0 as int)
                            + dec_i64(*n as int));
                    }
                },
                Expr::Identifier(id) => {
                    let disp: String = match self.get_var(id) {
                        Ok(v) => match v {
                            Variable::Number(n) => i64_to_string(*n),
                            Variable::StringLiteral(s) => s.clone(),
                            Variable::Bool(b) => match b {
                                Bool::True => String::from_str("true"),
                                Bool::False => String::from_str("false"),
                            },
                        },
                        Err(e) => {
                            return Err(e);
                        },
                    };
                    self.output.append(disp.as_str());
                    proof {
                        assert(self.output@.skip(len0 as int) =~= outpre.skip(len0 as int)
                            + var_display_v(env[id@]));
                    }
                },
                Expr::StringLiteral(s) => {
                    self.output.append(s.as_str());
                    proof {
                        assert(self.output@.skip(len0 as int) =~= outpre.skip(len0 as int) + s@);
                    }
                },
                _ => {
                    return Err(
                        ErrorType::Generic(String::from_str("Invalid argument to print")),
                    );
                },
            }
            // a space between arguments, not after the last
            let ghost outmid = self.output@;
            if i != args_count - 1 {
                self.output.append(" ");
            }
            proof {
                assert(self.output@.skip(len0 as int) =~= outmid.skip(len0 as int) + sep_v);
                let (ro, re) = print_args_v(env, argsv, i + 1);
                let (o0, e0) = print_args_v(env, argsv, 0);
                // one argument of the model is unfolded and the output
                // pieces are reassociated
                assert(o0 =~= self.output@.skip(len0 as int) + ro);
                assert(e0 == re);
            }
            i = i + 1;
        }
        self.output.append("\n");
        proof {
            reveal_strlit("\n");
            assert("\n"@ =~= seq!['\n']);
            let (o0, e0) = print_args_v(env, argsv, 0);
            assert(self.output@ == old(self).output@ + o0) by {
                assert(print_args_v(env, argsv, args_count as int) == (
                    seq!['\n'],
                    Option::<ErrV>::None,
                ));
                assert(self.output@.take(len0 as int) =~= old(self).output@);
                assert(self.output@ =~= self.output@.take(len0 as int) + self.output@.skip(
                    len0 as int,
                ));
            };
        }
        Ok(())
    }

    /// Handles variable declarations by evaluating the value, checking it
    /// against a declared type if one is present, and storing the binding,
    /// overwriting any prior binding of the name.
    fn handle_var_decl(&mut self, variable_declaration: &VariableDeclaration) -> (r: Result<
        (),
        ErrorType,
    >)
        ensures
            final(self).ast == old(self).ast,
            final(self).output == old(self).output,
            ({
                let d = (DeclV {
                    identifier: variable_declaration.identifier@,
                    typ: variable_declaration.typ,
                    value: expr_v(variable_declaration.value),
                });
                match (r, run_decl_v(old(self).variables@, d)) {
                    (Ok(()), Ok(m)) => final(self).variables@ == m,
                    (Err(e), Err(ev)) => e@ == ev && final(self).variables == old(self).variables,
                    _ => false,
                }
            }),
    {
        match &variable_declaration.typ {
            Some(var_type) => {
                if !type_check(var_type, &variable_declaration.value) {
                    let mut m = String::from_str("Variable type `");
                    let name = match var_type {
                        Type::Int => "int",
                        Type::Long => "long",
                        Type::Float => "float",
                        Type::Double => "double",
                        Type::Bool => "bool",
                        Type::Str => "str",
                        Type::NoType => "none",
                    };
                    m.append(name);
                    m.append("` does not match value type");
                    return Err(ErrorType::Generic(m));
                }
            },
            None => {},
        }
        match &variable_declaration.value {
            Expr::Number(n) => {
                self.variables.insert(variable_declaration.identifier.clone(), Variable::Number(*n));
                Ok(())
            },
            Expr::StringLiteral(s) => {
                self.variables.insert(
                    variable_declaration.identifier.clone(),
                    Variable::StringLiteral(s.clone()),
                );
                Ok(())
            },
            Expr::BinExpr(bin_expr) => {
                match self.handle_bin_expr(bin_expr) {
                    Ok(n) => {
                        self.variables.insert(
                            variable_declaration.identifier.clone(),
                            Variable::Number(n),
                        );
                        Ok(())
                    },
                    Err(e) => Err(e),
                }
            },
            _ => Err(
                ErrorType::Generic(
                    String::from_str("Can only store strings and number in variables"),
                ),
            ),
        }
    }

    /// Runs the interpreter, processing each expression in the AST in
    /// order and appending the program's output to `output`. The first
    /// error stops the run; output and bindings made before it are kept.
    #[verifier::loop_isolation(false)]
    #[verifier::rlimit(50)]
    pub fn run(&mut self) -> (r: Result<(), ErrorType>)
        ensures
            final(self).ast == old(self).ast,
            ({
                let (o, m, err) = run_v(old(self).variables@, exprs_v(old(self).ast@), 0);
                final(self).output@ == old(self).output@ + o && final(self).variables@ == m
                    && match (r, err) {
                    (Ok(()), Option::None) => true,
                    (Err(e), Option::Some(ev)) => e@ == ev,
                    _ => false,
                }
            }),
    {
        let ghost env0 = self.variables@;
        let ghost astv = exprs_v(self.ast@);
        let ghost len0 = self.output@.len();
        // the AST is taken out while it is walked, and put back whole
        let mut ast: Vec<Expr> = Vec::new();
        core::mem::swap(&mut ast, &mut self.ast);
        let n = ast.len();
        let mut i: usize = 0;
        proof {
            assert(self.output@.skip(len0 as int) =~= Seq::<char>::empty());
            let (o0, m0, e0) = run_v(env0, astv, 0);
            assert(Seq::<char>::empty() + o0 =~= o0);
        }
        while i < n
            invariant
                i <= n,
                n == ast@.len(),
                ast@ == old(self).ast@,
                self.output@.len() >= len0,
                self.output@.take(len0 as int) == old(self).output@,
                ({
                    let (o0, m0, e0) = run_v(env0, astv, 0);
                    let (oi, mi, ei) = run_v(self.variables@, astv, i as int);
                    o0 == self.output@.skip(len0 as int) + oi && m0 == mi && e0 == ei
                }),
            decreases n - i,
        {
            let ghost outpre = self.output@;
            let ghost envpre = self.variables@;
            proof {
                assert(astv[i as int] == expr_v(ast@[i as int]));
            }
            let node = &ast[i];
            let res: Result<(), ErrorType> = match node {
                Expr::FuncCall(func_call) => {
                    let r = self.handle_func_call(func_call);
                    proof {
                        let (no, ne) = func_call_v(
                            envpre,
                            (FuncCallV {
                                name: func_call.name@,
                                arguments: exprs_v(func_call.arguments@),
                            }),
                        );
                        assert(expr_v(ast@[i as int])->FuncCall_0.arguments =~= exprs_v(
                            func_call.arguments@,
                        ));
                        assert(self.output@.skip(len0 as int) =~= outpre.skip(len0 as int) + no);
                    }
                    r
                },
                Expr::VariableDeclaration(variable_declaration) => {
                    let r = self.handle_var_decl(variable_declaration);
                    proof {
                        assert(self.output@.skip(len0 as int) =~= outpre.skip(len0 as int)
                            + Seq::<char>::empty());
                    }
                    r
                },
                Expr::Identifier(id) => {
                    // a valid variable at the top level prints its value,
                    // which is chiefly useful in interactive mode
                    match self.get_var(id) {
                        Ok(v) => {
                            let disp: String = match v {
                                Variable::Number(nv) => i64_to_string(*nv),
                                Variable::StringLiteral(s) => s.clone(),
                                Variable::Bool(b) => match b {
                                    Bool::True => String::from_str("true"),
                                    Bool::False => String::from_str("false"),
                                },
                            };
                            self.output.append(disp.as_str());
                            self.output.append("\n");
                            proof {
                                reveal_strlit("\n");
                                assert("\n"@ =~= seq!['\n']);
                                assert(self.output@.skip(len0 as int) =~= outpre.skip(len0 as int)
                                    + (var_display_v(envpre[id@]) + seq!['\n']));
                            }
                            Ok(())
                        },
                        Err(e) => Err(e),
                    }
                },
                _ => {
                    let mut m = String::from_str("Expression `");
                    let d = expr_debug(node);
                    m.append(d.as_str());
                    m.append("` in this context is not yet implemented");
                    Err(ErrorType::Generic(m))
                },
            };
            match res {
                Ok(()) => {},
                Err(e) => {
                    self.ast = ast;
                    return Err(e);
                },
            }
            i = i + 1;
        }
        proof {
            let (o0, m0, e0) = run_v(env0, astv, 0);
            assert(run_v(self.variables@, astv, n as int) == (
                Seq::<char>::empty(),
                self.variables@,
                Option::<ErrV>::None,
            ));
            assert(self.output@.skip(len0 as int) + Seq::<char>::empty() =~= self.output@.skip(
                len0 as int,
            ));
            assert(self.output@ =~= self.output@.take(len0 as int) + self.output@.skip(
                len0 as int,
            ));
        }
        self.ast = ast;
        Ok(())
    }
}

/// Truncating 64-bit division of nonzero divisors, wrapping only on
/// `i64::MIN / -1`.
fn div_i64(a: i64, b: i64) -> (r: i64)
    requires
        b != 0,
    ensures
        r == div_trunc_i64(a, b),
{
    if a == i64::MIN && b == -1 {
        return i64::MIN;
    }
    let neg = (a < 0) != (b < 0);
    let la: u64 = if a == i64::MIN {
        9223372036854775808u64
    } else if a < 0 {
        (-a) as u64
    } else {
        a as u64
    };
    let lb: u64 = if b == i64::MIN {
        9223372036854775808u64
    } else if b < 0 {
        (-b) as u64
    } else {
        b as u64
    };
    proof {
        assert(la as int == abs_int(a as int));
        assert(lb as int == abs_int(b as int));
        assert(lb >= 1);
    }
    let q = la / lb;
    proof {
        assert(q as int == abs_int(a as int) / abs_int(b as int));
    }
    if neg {
        proof {
            assert(q <= 9223372036854775808u64) by (nonlinear_arith)
                requires
                    q == la / lb,
                    la <= 9223372036854775808u64,
                    lb >= 1,
            ;
        }
        if q == 9223372036854775808u64 {
            proof {
                assert((-(q as int)) as i64 == i64::MIN);
            }
            i64::MIN
        } else {
            let qi: i64 = q as i64;
            -qi
        }
    } else {
        proof {
            assert(la == 9223372036854775808u64 ==> lb >= 2);
            assert(q <= 9223372036854775807u64) by (nonlinear_arith)
                requires
                    q == la / lb,
                    la <= 9223372036854775808u64,
                    lb >= 1,
                    la == 9223372036854775808u64 ==> lb >= 2,
            ;
        }
        q as i64
    }
}

} // verus!
