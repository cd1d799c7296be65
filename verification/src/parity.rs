//! Laws relating the two execution modes: the interpreter and the compiler
//! reject the same ill-formed programs with the same errors.

use crate::compiler::bump_v;
use crate::compiler::c_bin_v;
use crate::compiler::c_node_v;
use crate::compiler::c_operand_v;
use crate::compiler::c_print_args_v;
use crate::compiler::c_print_sep_v;
use crate::compiler::c_run_v;
use crate::compiler::c_var_decl_v;
use crate::compiler::gen_ir_v;
use crate::compiler::CState;
use crate::compiler::c_func_call_v;
use crate::interpreter::func_call_v;
use crate::interpreter::print_args_v;
use crate::interpreter::run_decl_v;
use crate::interpreter::run_node_v;
use crate::interpreter::run_v;
use crate::parser::msg_fn_missing;
use crate::parser::msg_type_mismatch;
use crate::parser::msg_var_missing;
use crate::parser::type_check_v;
use crate::parser::BinExprV;
use crate::parser::DeclV;
use crate::parser::ExprV;
use crate::parser::FuncCallV;
use crate::parser::VarV;
use crate::utils::ErrV;
use vstd::prelude::*;

verus! {

/// Every function name but `print` is rejected, with the same error in
/// both modes, whatever the environments hold and whatever the arguments
/// are: the call produces no output and changes nothing.
pub proof fn lemma_unknown_function_parity(
    env: Map<Seq<char>, VarV>,
    st: CState,
    fc: FuncCallV,
)
    requires
        fc.name != "print"@,
    ensures
        func_call_v(env, fc) == (
            Seq::<char>::empty(),
            Some(ErrV::Generic(msg_fn_missing(fc.name))),
        ),
        c_func_call_v(st, fc) == (st, Some(ErrV::Generic(msg_fn_missing(fc.name)))),
        run_node_v(env, ExprV::FuncCall(fc)).2 == Some(
            ErrV::Generic(msg_fn_missing(fc.name)),
        ),
        c_node_v(st, ExprV::FuncCall(fc)).1 == Some(ErrV::Generic(msg_fn_missing(fc.name))),
{
}

/// A declared type that does not match the value expression is rejected
/// with the same error in both modes, before the value is evaluated or
/// lowered.
pub proof fn lemma_type_mismatch_parity(env: Map<Seq<char>, VarV>, st: CState, d: DeclV)
    requires
        d.typ is Some,
        !type_check_v(d.typ->Some_0, d.value),
    ensures
        run_node_v(env, ExprV::VariableDeclaration(Box::new(d))).2 == Some(
            ErrV::Generic(msg_type_mismatch(d.typ->Some_0)),
        ),
        c_node_v(st, ExprV::VariableDeclaration(Box::new(d))).1 == Some(
            ErrV::Generic(msg_type_mismatch(d.typ->Some_0)),
        ),
{
}

/// Printing a variable that neither environment binds is rejected with the
/// same error in both modes, at the same argument position.
pub proof fn lemma_unbound_print_parity(
    env: Map<Seq<char>, VarV>,
    st: CState,
    x: Seq<char>,
)
    requires
        !env.contains_key(x),
        !st.vars.contains_key(x),
    ensures
        run_node_v(
            env,
            ExprV::FuncCall(
                FuncCallV { name: "print"@, arguments: seq![ExprV::Identifier(x)] },
            ),
        ).2 == Some(ErrV::SyntaxError(msg_var_missing(x))),
        c_node_v(
            st,
            ExprV::FuncCall(
                FuncCallV { name: "print"@, arguments: seq![ExprV::Identifier(x)] },
            ),
        ).1 == Some(ErrV::SyntaxError(msg_var_missing(x))),
{
    let args = seq![ExprV::Identifier(x)];
    assert(print_args_v(env, args, 0).1 == Some(ErrV::SyntaxError(msg_var_missing(x))));
    assert(c_print_args_v(st, args, 0).1 == Some(ErrV::SyntaxError(msg_var_missing(x))));
}


/// A flat operand of arithmetic: a number, an identifier, or a nested
/// binary expression of flat operands — no calls, blocks or other kinds.
pub open spec fn flat_operand(e: ExprV) -> bool
    decreases e,
{
    match e {
        ExprV::Number(_) => true,
        ExprV::Identifier(_) => true,
        ExprV::BinExpr(b) => flat_operand(b.lhs) && flat_operand(b.rhs),
        _ => false,
    }
}

/// A flat `print` argument: a string literal, or a flat operand.
pub open spec fn flat_arg(e: ExprV) -> bool {
    e is StringLiteral || flat_operand(e)
}

/// A node of the language's flat fragment — prints, declarations, literals,
/// identifiers and flat arithmetic, the constructs both execution modes
/// support alike.
pub open spec fn flat_node(e: ExprV) -> bool {
    match e {
        ExprV::FuncCall(fc) => fc.name == "print"@ && forall|i: int|
            0 <= i < fc.arguments.len() ==> flat_arg(#[trigger] fc.arguments[i]),
        ExprV::VariableDeclaration(d) => d.value is StringLiteral || flat_operand(d.value)
            && !(d.value is Identifier),
        _ => false,
    }
}

/// A program made of flat nodes only.
pub open spec fn flat_program(ast: Seq<ExprV>) -> bool {
    forall|i: int| 0 <= i < ast.len() ==> flat_node(#[trigger] ast[i])
}

/// The interpreter's environment and the compiler's variable table agree:
/// the same names are bound, and the same names hold strings.
pub open spec fn kinds_aligned(env: Map<Seq<char>, VarV>, vars: Map<Seq<char>, VarV>) -> bool {
    env.dom() == vars.dom() && forall|k: Seq<char>|
        env.dom().contains(k) ==> ((#[trigger] env[k]) is StringLiteral <==> vars[k]
            is StringLiteral)
}

/// Lowering a flat operand always succeeds: the emitter checks neither
/// identifiers nor values there.
proof fn lemma_c_operand_flat(st: CState, e: ExprV)
    requires
        flat_operand(e),
    ensures
        c_operand_v(st, e).1 is Ok,
        c_operand_v(st, e).0.vars == st.vars,
    decreases e, 0int,
{
    match e {
        ExprV::BinExpr(b) => {
            lemma_c_bin_flat(bump_v(st).0, *b);
        },
        _ => {},
    }
}

/// Lowering flat arithmetic always succeeds.
proof fn lemma_c_bin_flat(st: CState, b: BinExprV)
    requires
        flat_operand(b.lhs),
        flat_operand(b.rhs),
    ensures
        c_bin_v(st, b).1 is Ok,
        c_bin_v(st, b).0.vars == st.vars,
    decreases b, 1int,
{
    lemma_c_operand_flat(st, b.lhs);
    let (st1, r1) = c_operand_v(st, b.lhs);
    lemma_c_operand_flat(st1, b.rhs);
}

/// Where the interpreter prints a flat argument list, the compiler lowers
/// it: every argument the interpreter could evaluate, the emitter can
/// lower, given aligned variable tables.
proof fn lemma_c_print_flat(
    env: Map<Seq<char>, VarV>,
    st: CState,
    args: Seq<ExprV>,
    i: int,
)
    requires
        kinds_aligned(env, st.vars),
        forall|j: int| 0 <= j < args.len() ==> flat_arg(#[trigger] args[j]),
        print_args_v(env, args, i).1 is None,
    ensures
        c_print_args_v(st, args, i).1 is None,
        c_print_args_v(st, args, i).0.vars == st.vars,
    decreases args.len() - i, 1int,
{
    if i < 0 || i >= args.len() {
    } else {
        let (st1, pk) = bump_v(st);
        match args[i] {
            ExprV::StringLiteral(msg) => {
                lemma_c_print_sep(env, c_print_args_step(st, args, i), args, i);
            },
            ExprV::Number(num) => {
                lemma_c_print_sep(env, c_print_args_step(st, args, i), args, i);
            },
            ExprV::BinExpr(b) => {
                lemma_c_bin_flat(st1, *b);
                lemma_c_print_sep(env, c_print_args_step(st, args, i), args, i);
            },
            ExprV::Identifier(id) => {
                assert(env.contains_key(id));
                assert(st1.vars.contains_key(id));
                lemma_c_print_sep(env, c_print_args_step(st, args, i), args, i);
            },
            _ => {},
        }
    }
}

/// The state after one flat argument's own lowering, before the separator.
spec fn c_print_args_step(st: CState, args: Seq<ExprV>, i: int) -> CState {
    let (st1, pk) = bump_v(st);
    match args[i] {
        ExprV::StringLiteral(msg) => {
            let (st2, pk2) = crate::compiler::emit_str_v(st1, msg);
            CState {
                ir: st2.ir + "  call $printf(l $v"@ + crate::utils::dec_digits(pk2 as nat)
                    + ")\n"@,
                ..st2
            }
        },
        ExprV::Number(num) => {
            let (st2, pk2) = crate::compiler::emit_str_v(st1, crate::utils::dec_i64(num as int));
            CState {
                ir: st2.ir + "  call $printf(l $v"@ + crate::utils::dec_digits(pk2 as nat)
                    + ")\n"@,
                ..st2
            }
        },
        ExprV::BinExpr(b) => {
            let (st2, tmp) = c_bin_v(st1, *b);
            CState {
                ir: st2.ir + "  call $printf(l $fmt_int, w "@ + tmp->Ok_0 + ")\n"@,
                ..st2
            }
        },
        ExprV::Identifier(id) => {
            match st1.vars[id] {
                VarV::StringLiteral(_) => CState {
                    ir: st1.ir + "  call $printf(l $"@ + id + ")\n"@,
                    ..st1
                },
                _ => CState {
                    ir: st1.ir + "  %v"@ + crate::utils::dec_digits(
                        crate::compiler::next_pk_v(st.pk) as nat,
                    ) + " =w loadw $"@ + id + "\n"@ + "  call $printf(l $fmt_int, w %v"@
                        + crate::utils::dec_digits(crate::compiler::next_pk_v(st.pk) as nat)
                        + ")\n"@,
                    ..st1
                },
            }
        },
        _ => st1,
    }
}

/// The separator and the remaining arguments, continued from a state with
/// the same variable table.
proof fn lemma_c_print_sep(
    env: Map<Seq<char>, VarV>,
    stm: CState,
    args: Seq<ExprV>,
    i: int,
)
    requires
        0 <= i < args.len(),
        kinds_aligned(env, stm.vars),
        forall|j: int| 0 <= j < args.len() ==> flat_arg(#[trigger] args[j]),
        print_args_v(env, args, i + 1).1 is None,
    ensures
        c_print_sep_v(stm, args, i).1 is None,
        c_print_sep_v(stm, args, i).0.vars == stm.vars,
    decreases args.len() - i, 0int,
{
    let st2 = if i != args.len() - 1 {
        CState { ir: stm.ir + "  call $printf(l $space)\n"@, ..stm }
    } else {
        stm
    };
    lemma_c_print_flat(env, st2, args, i + 1);
}

/// Where the interpreter performs a flat declaration, the compiler lowers
/// it and records the same value kind, keeping the tables aligned.
proof fn lemma_c_decl_flat(env: Map<Seq<char>, VarV>, st: CState, d: DeclV)
    requires
        kinds_aligned(env, st.vars),
        d.value is StringLiteral || flat_operand(d.value) && !(d.value is Identifier),
        run_decl_v(env, d) is Ok,
    ensures
        c_var_decl_v(st, d).1 is None,
        kinds_aligned(run_decl_v(env, d)->Ok_0, c_var_decl_v(st, d).0.vars),
    decreases d,
{
    match d.value {
        ExprV::BinExpr(b) => {
            lemma_c_bin_flat(st, *b);
        },
        _ => {},
    }
    let env2 = run_decl_v(env, d)->Ok_0;
    let vars2 = c_var_decl_v(st, d).0.vars;
    assert(env2.dom() =~= vars2.dom());
    assert forall|k: Seq<char>| env2.dom().contains(k) implies ((#[trigger] env2[k])
        is StringLiteral <==> vars2[k] is StringLiteral) by {
        if k != d.identifier {
            assert(env.dom().contains(k));
        }
    }
}

/// Where the interpreter runs a flat node, the compiler lowers it, and the
/// variable tables stay aligned.
proof fn lemma_c_node_flat(env: Map<Seq<char>, VarV>, st: CState, node: ExprV)
    requires
        kinds_aligned(env, st.vars),
        flat_node(node),
        run_node_v(env, node).2 is None,
    ensures
        c_node_v(st, node).1 is None,
        kinds_aligned(run_node_v(env, node).1, c_node_v(st, node).0.vars),
{
    match node {
        ExprV::FuncCall(fc) => {
            lemma_c_print_flat(env, st, fc.arguments, 0);
        },
        ExprV::VariableDeclaration(d) => {
            lemma_c_decl_flat(env, st, *d);
        },
        _ => {},
    }
}

/// The provable core of the round-trip property: a program of the flat
/// fragment — prints, declarations, literals, identifiers and flat
/// arithmetic — that the interpreter runs without error, the compiler
/// lowers without error, and the two keep aligned variable tables
/// throughout. (Output equality of the two modes is out of this library's
/// reach: the compiled side runs through an external code generator.)
pub proof fn lemma_compiler_accepts_flat_runs(
    env: Map<Seq<char>, VarV>,
    st: CState,
    ast: Seq<ExprV>,
    i: int,
)
    requires
        kinds_aligned(env, st.vars),
        flat_program(ast),
        run_v(env, ast, i).2 is None,
    ensures
        c_run_v(st, ast, i).1 is None,
        kinds_aligned(run_v(env, ast, i).1, c_run_v(st, ast, i).0.vars),
    decreases ast.len() - i,
{
    if i < 0 || i >= ast.len() {
    } else {
        lemma_c_node_flat(env, st, ast[i]);
        let (o, env2, err) = run_node_v(env, ast[i]);
        let (st2, cerr) = c_node_v(st, ast[i]);
        lemma_compiler_accepts_flat_runs(env2, st2, ast, i + 1);
    }
}

/// The same, at the whole-pass level: IR generation succeeds on every flat
/// program that interpretation from an empty environment accepts.
pub proof fn lemma_flat_program_compiles(st: CState, ast: Seq<ExprV>)
    requires
        st.vars == Map::<Seq<char>, VarV>::empty(),
        flat_program(ast),
        run_v(Map::empty(), ast, 0).2 is None,
    ensures
        gen_ir_v(st, ast).1 is Ok,
{
    let st1 = CState { ir: st.ir + "export function w $main() {\n@start\n"@, ..st };
    assert(kinds_aligned(Map::empty(), st1.vars)) by {
        assert(Map::<Seq<char>, VarV>::empty().dom() =~= st1.vars.dom());
    }
    lemma_compiler_accepts_flat_runs(Map::empty(), st1, ast, 0);
}

} // verus!
