//! The compiler: it walks the AST and emits a textual intermediate
//! representation — a data section of named storage blobs and one exported
//! entry function of straight-line instructions — for an external code
//! generator to lower further. A monotonically increasing counter names
//! every temporary and anonymous blob.

use crate::parser::expr_debug;
use crate::parser::expr_v;
use crate::parser::exprs_v;
use crate::parser::msg_fn_missing;
use crate::parser::msg_type_mismatch;
use crate::parser::msg_unsupported;
use crate::parser::msg_var_missing;
use crate::parser::type_check;
use crate::parser::type_check_v;
use crate::parser::BinExpr;
use crate::parser::BinExprV;
use crate::parser::BinOpKind;
use crate::parser::Bool;
use crate::parser::DeclV;
use crate::parser::Expr;
use crate::parser::ExprV;
use crate::parser::FuncCall;
use crate::parser::FuncCallV;
use crate::parser::Type;
use crate::parser::VarMap;
use crate::parser::VarV;
use crate::parser::Variable;
use crate::parser::VariableDeclaration;
use crate::parser::binop_str;
use crate::utils::dec_digits;
use crate::utils::dec_i64;
use crate::utils::escape_string;
use crate::utils::escape_v;
use crate::utils::i64_to_string;
use crate::utils::usize_to_string;
use crate::utils::ErrV;
use crate::utils::ErrorType;
use vstd::prelude::*;

verus! {

broadcast use
    vstd::std_specs::vec::axiom_vec_index_decreases,
    vstd::seq::axiom_seq_index_decreases;

/// Mathematical state of an emission pass: the data section, the
/// instruction text, the counter, and the recorded kind of each variable.
pub struct CState {
    pub data: Seq<char>,
    pub ir: Seq<char>,
    pub pk: int,
    pub vars: Map<Seq<char>, VarV>,
}

/// The counter after one increment; it stays put at the top of its
/// executable type's range, which no real emission pass reaches.
pub open spec fn next_pk_v(pk: int) -> int {
    if pk < usize::MAX {
        pk + 1
    } else {
        pk
    }
}

/// The state after the counter is bumped, with the fresh counter value.
pub open spec fn bump_v(st: CState) -> (CState, int) {
    (CState { pk: next_pk_v(st.pk), ..st }, next_pk_v(st.pk))
}

/// The state after a string is emitted as a fresh null-terminated data
/// blob, with the blob's number: backslashes and quotes are escaped.
pub open spec fn emit_str_v(st: CState, s: Seq<char>) -> (CState, int) {
    let (st1, pk) = bump_v(st);
    (
        CState {
            data: st1.data + "data $v"@ + dec_digits(pk as nat) + " = { b \""@ + escape_v(s)
                + "\", b 0 }\n"@,
            ..st1
        },
        pk,
    )
}

/// What lowering an operand emits and yields: a numeric literal becomes an
/// immediate, an identifier a load into a fresh temporary, a nested binary
/// expression is lowered first; the counter is consumed even where the
/// operand needs no temporary.
pub open spec fn c_operand_v(st: CState, e: ExprV) -> (CState, Result<Seq<char>, ErrV>)
    decreases e, 0int,
{
    let (st1, pk) = bump_v(st);
    match e {
        ExprV::Number(n) => (st1, Ok(dec_i64(n as int))),
        ExprV::Identifier(id) => (
            CState {
                ir: st1.ir + "  %op"@ + dec_digits(pk as nat) + " =w loadw $"@ + id + "\n"@,
                ..st1
            },
            Ok("%op"@ + dec_digits(pk as nat)),
        ),
        ExprV::BinExpr(b) => c_bin_v(st1, *b),
        _ => (st1, Err(ErrV::Generic("Cannot add variable which is not a number"@))),
    }
}

/// What lowering a binary expression emits and yields: both operands, left
/// before right, then one arithmetic instruction into a fresh temporary,
/// whose name is yielded. Emission does not evaluate operands, so a zero
/// divisor is not detected here; the emitted division faults when the
/// generated program runs, where the interpreter reports it instead.
pub open spec fn c_bin_v(st: CState, b: BinExprV) -> (CState, Result<Seq<char>, ErrV>)
    decreases b, 1int,
{
    match c_operand_v(st, b.lhs) {
        (st1, Ok(l)) => match c_operand_v(st1, b.rhs) {
            (st2, Ok(r)) => {
                let (st3, pk) = bump_v(st2);
                (
                    CState {
                        ir: st3.ir + "  %v"@ + dec_digits(pk as nat) + " =w "@ + binop_str(b.kind)
                            + " "@ + l + ", "@ + r + "\n"@,
                        ..st3
                    },
                    Ok("%v"@ + dec_digits(pk as nat)),
                )
            },
            (st2, Err(e)) => (st2, Err(e)),
        },
        (st1, Err(e)) => (st1, Err(e)),
    }
}

/// What lowering a `print` call's arguments from index `i` on emits: one
/// output call per argument, a separator call between arguments, a newline
/// call after the last; an argument kind the emitter does not support, or
/// an identifier never declared, stops the pass.
pub open spec fn c_print_args_v(st: CState, args: Seq<ExprV>, i: int) -> (CState, Option<ErrV>)
    decreases args, args.len() - i, 1int,
{
    if i < 0 || i >= args.len() {
        (CState { ir: st.ir + "  call $printf(l $endl)\n"@, ..st }, None)
    } else {
        let (st1, pk) = bump_v(st);
        match args[i] {
            ExprV::StringLiteral(msg) => {
                let (st2, pk2) = emit_str_v(st1, msg);
                let st3 = CState {
                    ir: st2.ir + "  call $printf(l $v"@ + dec_digits(pk2 as nat) + ")\n"@,
                    ..st2
                };
                c_print_sep_v(st3, args, i)
            },
            ExprV::Number(num) => {
                let (st2, pk2) = emit_str_v(st1, dec_i64(num as int));
                let st3 = CState {
                    ir: st2.ir + "  call $printf(l $v"@ + dec_digits(pk2 as nat) + ")\n"@,
                    ..st2
                };
                c_print_sep_v(st3, args, i)
            },
            ExprV::BinExpr(b) => match c_bin_v(st1, *b) {
                (st2, Ok(tmp)) => {
                    let st3 = CState {
                        ir: st2.ir + "  call $printf(l $fmt_int, w "@ + tmp + ")\n"@,
                        ..st2
                    };
                    c_print_sep_v(st3, args, i)
                },
                (st2, Err(e)) => (st2, Some(e)),
            },
            ExprV::Identifier(id) => if st1.vars.contains_key(id) {
                match st1.vars[id] {
                    VarV::StringLiteral(_) => {
                        let st2 = CState {
                            ir: st1.ir + "  call $printf(l $"@ + id + ")\n"@,
                            ..st1
                        };
                        c_print_sep_v(st2, args, i)
                    },
                    _ => {
                        // a recorded number is loaded from its storage and
                        // passed through the integer-formatting call
                        let st2 = CState {
                            ir: st1.ir + "  %v"@ + dec_digits(pk as nat) + " =w loadw $"@ + id
                                + "\n"@ + "  call $printf(l $fmt_int, w %v"@ + dec_digits(
                                pk as nat,
                            ) + ")\n"@,
                            ..st1
                        };
                        c_print_sep_v(st2, args, i)
                    },
                }
            } else {
                (st1, Some(ErrV::SyntaxError(msg_var_missing(id))))
            },
            _ => (st1, Some(ErrV::Generic("Invalid argument to print"@))),
        }
    }
}

/// The separator call between arguments (none after the last), then the
/// remaining arguments.
pub open spec fn c_print_sep_v(st: CState, args: Seq<ExprV>, i: int) -> (CState, Option<ErrV>)
    decreases args, args.len() - i - 1, 2int,
{
    if 0 <= i < args.len() {
        let st2 = if i != args.len() - 1 {
            CState { ir: st.ir + "  call $printf(l $space)\n"@, ..st }
        } else {
            st
        };
        c_print_args_v(st2, args, i + 1)
    } else {
        (st, None)
    }
}

/// What lowering a function call emits: only the `print` builtin is
/// recognized.
pub open spec fn c_func_call_v(st: CState, fc: FuncCallV) -> (CState, Option<ErrV>) {
    if fc.name == "print"@ {
        c_print_args_v(st, fc.arguments, 0)
    } else {
        (st, Some(ErrV::Generic(msg_fn_missing(fc.name))))
    }
}

/// What lowering a variable declaration emits: a constant becomes a
/// statically initialized data entry under the variable's name; a binary
/// expression a zero-initialized entry plus a store of the computed
/// temporary; and the variable's value kind is recorded so that later
/// prints of it pick the right output call.
pub open spec fn c_var_decl_v(st: CState, d: DeclV) -> (CState, Option<ErrV>) {
    if d.typ is Some && !type_check_v(d.typ->Some_0, d.value) {
        (st, Some(ErrV::Generic(msg_type_mismatch(d.typ->Some_0))))
    } else {
        match d.value {
            ExprV::Number(n) => (
                CState {
                    data: st.data + "data $"@ + d.identifier + " = { w "@ + dec_i64(n as int)
                        + " }\n"@,
                    vars: st.vars.insert(d.identifier, VarV::Number(n)),
                    ..st
                },
                None,
            ),
            ExprV::StringLiteral(s) => (
                // the text is written as the stored value displays, without
                // escaping
                CState {
                    data: st.data + "data $"@ + d.identifier + " = { b \""@ + s + "\", b 0 }\n"@,
                    vars: st.vars.insert(d.identifier, VarV::StringLiteral(s)),
                    ..st
                },
                None,
            ),
            ExprV::BinExpr(b) => match c_bin_v(st, *b) {
                (st1, Ok(tmp)) => (
                    CState {
                        data: st1.data + "data $"@ + d.identifier + " = { w 0 }\n"@,
                        ir: st1.ir + "  storew "@ + tmp + ", $"@ + d.identifier + "\n"@,
                        vars: st1.vars.insert(d.identifier, VarV::Number(0)),
                        ..st1
                    },
                    None,
                ),
                (st1, Err(e)) => (st1, Some(e)),
            },
            _ => (st, Some(ErrV::Generic("Can only store strings and numbers in variables"@))),
        }
    }
}

/// What lowering one top-level expression emits.
pub open spec fn c_node_v(st: CState, node: ExprV) -> (CState, Option<ErrV>) {
    match node {
        ExprV::FuncCall(fc) => c_func_call_v(st, fc),
        ExprV::VariableDeclaration(d) => c_var_decl_v(st, *d),
        _ => (st, Some(ErrV::Generic(msg_unsupported(node)))),
    }
}

/// What lowering the whole program from node `i` on emits: the first
/// failing node stops the pass.
pub open spec fn c_run_v(st: CState, ast: Seq<ExprV>, i: int) -> (CState, Option<ErrV>)
    decreases ast.len() - i,
{
    if i < 0 || i >= ast.len() {
        (st, None)
    } else {
        let (st1, err) = c_node_v(st, ast[i]);
        if err is Some {
            (st1, err)
        } else {
            c_run_v(st1, ast, i + 1)
        }
    }
}

/// What a whole emission pass produces: the exported entry function's
/// header, every node, a return instruction, and the data section joined
/// in front of the instruction text.
pub open spec fn gen_ir_v(st: CState, ast: Seq<ExprV>) -> (CState, Result<Seq<char>, ErrV>) {
    let st1 = CState { ir: st.ir + "export function w $main() {\n@start\n"@, ..st };
    match c_run_v(st1, ast, 0) {
        (st2, Option::None) => {
            let st3 = CState { ir: st2.ir + "  ret 0\n}"@, ..st2 };
            (st3, Ok(st3.data + "\n"@ + st3.ir))
        },
        (st2, Option::Some(e)) => (st2, Err(e)),
    }
}

/// Represents a compiler that processes an abstract syntax tree (AST) and
/// generates intermediate representation (IR), as well as handles variable
/// management and function calls
pub struct Compiler {
    pub ast: Vec<Expr>,
    pub ir: String,
    pub data: String,
    pub pk: usize,
    pub variables: VarMap,
}

impl Compiler {
    /// The mathematical state of this emission pass.
    pub open spec fn st(&self) -> CState {
        CState { data: self.data@, ir: self.ir@, pk: self.pk as int, vars: self.variables@ }
    }

    /// Creates a new instance of the `Compiler` struct, initializing its
    /// fields to default values
    pub fn new() -> (r: Compiler)
        ensures
            r.ast@ == Seq::<Expr>::empty(),
            r.st() == (CState {
                data: Seq::<char>::empty(),
                ir: Seq::<char>::empty(),
                pk: 0int,
                vars: Map::<Seq<char>, VarV>::empty(),
            }),
    {
        Compiler {
            ast: Vec::new(),
            ir: String::new(),
            data: String::new(),
            pk: 0,
            variables: VarMap::new(),
        }
    }

    /// Loads the provided abstract syntax tree (AST) into the compiler,
    /// replacing any existing AST
    pub fn load_ast(&mut self, ast: Vec<Expr>)
        ensures
            final(self).ast == ast,
            final(self).st() == old(self).st(),
    {
        self.ast = ast;
    }

    /// Creates a new `Compiler` instance from the given AST, initializing
    /// necessary fields
    pub fn from_ast(ast: Vec<Expr>) -> (r: Compiler)
        ensures
            r.ast == ast,
            r.st() == (CState {
                data: Seq::<char>::empty(),
                ir: Seq::<char>::empty(),
                pk: 0int,
                vars: Map::<Seq<char>, VarV>::empty(),
            }),
    {
        Compiler {
            ast,
            ir: String::new(),
            data: String::new(),
            pk: 0,
            variables: VarMap::new(),
        }
    }

    /// Retrieves a variable by its identifier, or reports that it does not
    /// exist.
    fn get_var(&self, ident: &String) -> (r: Result<&Variable, ErrorType>)
        ensures
            match r {
                Ok(v) => self.variables@.contains_key(ident@) && crate::parser::var_v(*v)
                    == self.variables@[ident@],
                Err(e) => !self.variables@.contains_key(ident@) && e@ == ErrV::SyntaxError(
                    msg_var_missing(ident@),
                ),
            },
    {
        match self.variables.get(ident) {
            Some(v) => Ok(v),
            None => {
                let mut m = String::from_str("Variable doesn't exist: `");
                m.append(ident.as_str());
                m.append("`");
                Err(ErrorType::SyntaxError(m))
            },
        }
    }

    /// Increments and returns the primary key, used for generating unique
    /// labels; at the top of `usize` it stays put instead of overflowing.
    fn next_pk(&mut self) -> (r: usize)
        ensures
            final(self).ast == old(self).ast,
            final(self).st() == bump_v(old(self).st()).0,
            r as int == bump_v(old(self).st()).1,
    {
        if self.pk < usize::MAX {
            self.pk = self.pk + 1;
        }
        self.pk
    }

    /// Increments the primary key without returning it
    fn inc_pk(&mut self)
        ensures
            final(self).ast == old(self).ast,
            final(self).st() == bump_v(old(self).st()).0,
    {
        if self.pk < usize::MAX {
            self.pk = self.pk + 1;
        }
    }

    /// Emits given string to IR data section and returns pk for the
    /// variable
    fn emit_str(&mut self, s: &str) -> (r: usize)
        ensures
            final(self).ast == old(self).ast,
            final(self).st() == emit_str_v(old(self).st(), s@).0,
            r as int == emit_str_v(old(self).st(), s@).1,
    {
        let escaped = escape_string(s);
        let pk = self.next_pk();
        self.data.append("data $v");
        let pks = usize_to_string(pk);
        self.data.append(pks.as_str());
        self.data.append(" = { b \"");
        self.data.append(escaped.as_str());
        self.data.append("\", b 0 }\n");
        pk
    }

    /// Evaluates an operand expression and returns its result temporary or
    /// immediate text.
    fn eval_operand(&mut self, operand: &Expr) -> (r: Result<String, ErrorType>)
        ensures
            final(self).ast == old(self).ast,
            ({
                let (st2, res) = c_operand_v(old(self).st(), expr_v(*operand));
                final(self).st() == st2 && match (r, res) {
                    (Ok(s), Ok(t)) => s@ == t,
                    (Err(e), Err(ev)) => e@ == ev,
                    _ => false,
                }
            }),
        decreases operand, 0int,
    {
        let pk = self.next_pk();
        match operand {
            Expr::Number(n) => Ok(i64_to_string(*n)),
            Expr::Identifier(id) => {
                self.ir.append("  %op");
                let pks = usize_to_string(pk);
                self.ir.append(pks.as_str());
                self.ir.append(" =w loadw $");
                self.ir.append(id.as_str());
                self.ir.append("\n");
                let mut t = String::from_str("%op");
                t.append(pks.as_str());
                Ok(t)
            },
            Expr::BinExpr(bin_expr) => self.handle_bin_expr(bin_expr),
            _ => Err(
                ErrorType::Generic(String::from_str("Cannot add variable which is not a number")),
            ),
        }
    }

    /// Handles a binary expression and generates corresponding IR. Returns
    /// the temporary holding the result.
    fn handle_bin_expr(&mut self, bin_expr: &BinExpr) -> (r: Result<String, ErrorType>)
        ensures
            final(self).ast == old(self).ast,
            ({
                let (st2, res) = c_bin_v(
                    old(self).st(),
                    (BinExprV {
                        lhs: expr_v(bin_expr.lhs),
                        rhs: expr_v(bin_expr.rhs),
                        kind: bin_expr.kind,
                    }),
                );
                final(self).st() == st2 && match (r, res) {
                    (Ok(s), Ok(t)) => s@ == t,
                    (Err(e), Err(ev)) => e@ == ev,
                    _ => false,
                }
            }),
        decreases bin_expr, 1int,
    {
        let lhs = match self.eval_operand(&bin_expr.lhs) {
            Ok(s) => s,
            Err(e) => {
                return Err(e);
            },
        };
        let rhs = match self.eval_operand(&bin_expr.rhs) {
            Ok(s) => s,
            Err(e) => {
                return Err(e);
            },
        };
        let pk = self.next_pk();
        let pks = usize_to_string(pk);
        self.ir.append("  %v");
        self.ir.append(pks.as_str());
        self.ir.append(" =w ");
        self.ir.append(bin_expr.kind.to_str());
        self.ir.append(" ");
        self.ir.append(lhs.as_str());
        self.ir.append(", ");
        self.ir.append(rhs.as_str());
        self.ir.append("\n");
        let mut t = String::from_str("%v");
        t.append(pks.as_str());
        Ok(t)
    }

    /// Handles a function call by dispatching to the appropriate handler
    fn handle_func_call(&mut self, func_call: &FuncCall) -> (r: Result<(), ErrorType>)
        ensures
            final(self).ast == old(self).ast,
            ({
                let (st2, err) = c_func_call_v(
                    old(self).st(),
                    (FuncCallV { name: func_call.name@, arguments: exprs_v(func_call.arguments@) }),
                );
                final(self).st() == st2 && match (r, err) {
                    (Ok(()), Option::None) => true,
                    (Err(e), Option::Some(ev)) => e@ == ev,
                    _ => false,
                }
            }),
    {
        let is_print = func_call.name == String::from_str("print");
        if is_print {
            self.handle_print(func_call)
        } else {
            let mut m = String::from_str("Function `");
            m.append(func_call.name.as_str());
            m.append("` is not implemented");
            Err(ErrorType::Generic(m))
        }
    }

    /// Handles the `print` function call by generating IR to print its
    /// arguments
    #[verifier::loop_isolation(false)]
    #[verifier::rlimit(100)]
    fn handle_print(&mut self, func_call: &FuncCall) -> (r: Result<(), ErrorType>)
        ensures
            final(self).ast == old(self).ast,
            ({
                let (st2, err) = c_print_args_v(old(self).st(), exprs_v(func_call.arguments@), 0);
                final(self).st() == st2 && match (r, err) {
                    (Ok(()), Option::None) => true,
                    (Err(e), Option::Some(ev)) => e@ == ev,
                    _ => false,
                }
            }),
    {
        let ghost argsv = exprs_v(func_call.arguments@);
        let ghost (st_fin, e_fin) = c_print_args_v(old(self).st(), argsv, 0);
        let args_count = func_call.arguments.len();
        let mut i: usize = 0;
        while i < args_count
            invariant
                i <= args_count,
                args_count == func_call.arguments@.len(),
                self.ast == old(self).ast,
                ({
                    let (stc, ec) = c_print_args_v(self.st(), argsv, i as int);
                    stc == st_fin && ec == e_fin
                }),
            decreases args_count - i,
        {
            proof {
                assert(argsv[i as int] == expr_v(func_call.arguments@[i as int]));
            }
            let pk = self.next_pk();
            match &func_call.arguments[i] {
                Expr::StringLiteral(message) => {
                    let pk2 = self.emit_str(message.as_str());
                    self.ir.append("  call $printf(l $v");
                    let pks = usize_to_string(pk2);
                    self.ir.append(pks.as_str());
                    self.ir.append(")\n");
                },
                Expr::Number(num) => {
                    let text = i64_to_string(*num);
                    let pk2 = self.emit_str(text.as_str());
                    self.ir.append("  call $printf(l $v");
                    let pks = usize_to_string(pk2);
                    self.ir.append(pks.as_str());
                    self.ir.append(")\n");
                },
                Expr::BinExpr(bin_expr) => {
                    match self.handle_bin_expr(bin_expr) {
                        Ok(res_var) => {
                            self.ir.append("  call $printf(l $fmt_int, w ");
                            self.ir.append(res_var.as_str());
                            self.ir.append(")\n");
                        },
                        Err(e) => {
                            return Err(e);
                        },
                    }
                },
                Expr::Identifier(id) => {
                    let is_string = match self.get_var(id) {
                        Ok(v) => match v {
                            Variable::StringLiteral(_) => true,
                            _ => false,
                        },
                        Err(e) => {
                            return Err(e);
                        },
                    };
                    if is_string {
                        self.ir.append("  call $printf(l $");
                        self.ir.append(id.as_str());
                        self.ir.append(")\n");
                    } else {
                        let pks = usize_to_string(pk);
                        self.ir.append("  %v");
                        self.ir.append(pks.as_str());
                        self.ir.append(" =w loadw $");
                        self.ir.append(id.as_str());
                        self.ir.append("\n");
                        self.ir.append("  call $printf(l $fmt_int, w %v");
                        self.ir.append(pks.as_str());
                        self.ir.append(")\n");
                    }
                },
                _ => {
                    return Err(
                        ErrorType::Generic(String::from_str("Invalid argument to print")),
                    );
                },
            }
            // a separator between arguments, not after the last
            if i != args_count - 1 {
                self.ir.append("  call $printf(l $space)\n");
            }
            i = i + 1;
        }
        self.ir.append("  call $printf(l $endl)\n");
        Ok(())
    }

    /// Handles a variable declaration, storing the variable's kind in the
    /// `variables` map and generating corresponding data and IR
    fn handle_var_decl(&mut self, variable_declaration: &VariableDeclaration) -> (r: Result<
        (),
        ErrorType,
    >)
        ensures
            final(self).ast == old(self).ast,
            ({
                let (st2, err) = c_var_decl_v(
                    old(self).st(),
                    (DeclV {
                        identifier: variable_declaration.identifier@,
                        typ: variable_declaration.typ,
                        value: expr_v(variable_declaration.value),
                    }),
                );
                final(self).st() == st2 && match (r, err) {
                    (Ok(()), Option::None) => true,
                    (Err(e), Option::Some(ev)) => e@ == ev,
                    _ => false,
                }
            }),
    {
        match &variable_declaration.typ {
            Some(var_type) => {
                if !type_check(var_type, &variable_declaration.value) {
                    let mut m = String::from_str("Variable type `");
                    let name = match var_type {
                        Type::Int => "int",
                        Type::Long => "long",
                        Type::Float => "float",
                        Type::Double => "double",
                        Type::Bool => "bool",
                        Type::Str => "str",
                        Type::NoType => "none",
                    };
                    m.append(name);
                    m.append("` does not match value type");
                    return Err(ErrorType::Generic(m));
                }
            },
            None => {},
        }
        match &variable_declaration.value {
            Expr::Number(n) => {
                self.data.append("data $");
                self.data.append(variable_declaration.identifier.as_str());
                self.data.append(" = { w ");
                let text = i64_to_string(*n);
                self.data.append(text.as_str());
                self.data.append(" }\n");
                self.variables.insert(variable_declaration.identifier.clone(), Variable::Number(*n));
                Ok(())
            },
            Expr::StringLiteral(s) => {
                self.data.append("data $");
                self.data.append(variable_declaration.identifier.as_str());
                self.data.append(" = { b \"");
                self.data.append(s.as_str());
                self.data.append("\", b 0 }\n");
                self.variables.insert(
                    variable_declaration.identifier.clone(),
                    Variable::StringLiteral(s.clone()),
                );
                Ok(())
            },
            Expr::BinExpr(bin_expr) => {
                match self.handle_bin_expr(bin_expr) {
                    Ok(res_var) => {
                        self.data.append("data $");
                        self.data.append(variable_declaration.identifier.as_str());
                        self.data.append(" = { w 0 }\n");
                        self.ir.append("  storew ");
                        self.ir.append(res_var.as_str());
                        self.ir.append(", $");
                        self.ir.append(variable_declaration.identifier.as_str());
                        self.ir.append("\n");
                        self.variables.insert(
                            variable_declaration.identifier.clone(),
                            Variable::Number(0),
                        );
                        Ok(())
                    },
                    Err(e) => Err(e),
                }
            },
            _ => Err(
                ErrorType::Generic(
                    String::from_str("Can only store strings and numbers in variables"),
                ),
            ),
        }
    }

    /// Generates the intermediate representation (IR) for the AST and
    /// returns it as a string: the data section, a separating newline, and
    /// the entry function's instructions.
    #[verifier::loop_isolation(false)]
    pub fn generate_ir(&mut self) -> (r: Result<String, ErrorType>)
        ensures
            final(self).ast == old(self).ast,
            ({
                let (st2, res) = gen_ir_v(old(self).st(), exprs_v(old(self).ast@));
                final(self).st() == st2 && match (r, res) {
                    (Ok(s), Ok(t)) => s@ == t,
                    (Err(e), Err(ev)) => e@ == ev,
                    _ => false,
                }
            }),
    {
        self.ir.append("export function w $main() {\n@start\n");
        let ghost astv = exprs_v(self.ast@);
        let ghost (st_fin, e_fin) = c_run_v(self.st(), astv, 0);
        // the AST is taken out while it is walked, and put back whole
        let mut ast: Vec<Expr> = Vec::new();
        core::mem::swap(&mut ast, &mut self.ast);
        let n = ast.len();
        let mut i: usize = 0;
        while i < n
            invariant
                i <= n,
                n == ast@.len(),
                ast@ == old(self).ast@,
                ({
                    let (stc, ec) = c_run_v(self.st(), astv, i as int);
                    stc == st_fin && ec == e_fin
                }),
            decreases n - i,
        {
            proof {
                assert(astv[i as int] == expr_v(ast@[i as int]));
            }
            let node = &ast[i];
            let res: Result<(), ErrorType> = match node {
                Expr::FuncCall(func_call) => {
                    let r = self.handle_func_call(func_call);
                    proof {
                        assert(expr_v(ast@[i as int])->FuncCall_0.arguments =~= exprs_v(
                            func_call.arguments@,
                        ));
                    }
                    r
                },
                Expr::VariableDeclaration(variable_declaration) => {
                    self.handle_var_decl(variable_declaration)
                },
                _ => {
                    let mut m = String::from_str("Expression `");
                    let d = expr_debug(node);
                    m.append(d.as_str());
                    m.append("` in this context is not yet implemented");
                    Err(ErrorType::Generic(m))
                },
            };
            match res {
                Ok(()) => {},
                Err(e) => {
                    self.ast = ast;
                    return Err(e);
                },
            }
            i = i + 1;
        }
        self.ast = ast;
        self.ir.append("  ret 0\n}");
        let mut out = self.data.clone();
        out.append("\n");
        out.append(self.ir.as_str());
        proof {
            reveal_strlit("\n");
        }
        Ok(out)
    }
}

} // verus!
