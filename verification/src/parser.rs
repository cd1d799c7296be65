//! Tokens, the abstract syntax tree, the lexer and the recursive-descent
//! parser of the language, together with the mathematical views of these
//! types that the contracts of the interpreter and the compiler speak of.

use crate::utils::dec_digits;
use crate::utils::dec_i64;
use crate::utils::ErrV;
use crate::utils::ErrorType;
use vstd::prelude::*;

verus! {

broadcast use
    vstd::std_specs::vec::axiom_vec_index_decreases,
    vstd::seq::axiom_seq_index_decreases;

/// Represents different token types for the lexer
#[derive(Debug, PartialEq, Clone)]
pub enum Token {
    // Keywords
    Let,
    If,
    True,
    False,
    // Operators
    Plus,
    Minus,
    Multiply,
    Divide,
    Equals,
    // Types
    Type(Type),
    // Punctuation
    LeftParen,
    RightParen,
    LeftBrace,
    RightBrace,
    Comma,
    // Identifiers
    Identifier(String),
    // Literals
    Number(i64),
    StringLiteral(String),
    Bool(Bool),
}

/// The declared types a variable declaration may name. `NoType` stands for
/// the absence of a declared type.
#[derive(Debug, PartialEq, Clone, Copy)]
pub enum Type {
    Int,
    Long,
    Float,
    Double,
    Bool,
    Str,
    NoType,
}

/// A boolean literal.
#[derive(Debug, PartialEq, Clone, Copy)]
pub enum Bool {
    True,
    False,
}

/// Mathematical value of a token: identifier and string payloads as
/// character sequences.
pub enum TokenV {
    Let,
    If,
    True,
    False,
    Plus,
    Minus,
    Multiply,
    Divide,
    Equals,
    Type(Type),
    LeftParen,
    RightParen,
    LeftBrace,
    RightBrace,
    Comma,
    Identifier(Seq<char>),
    Number(i64),
    StringLiteral(Seq<char>),
    Bool(Bool),
}

impl View for Token {
    type V = TokenV;

    open spec fn view(&self) -> TokenV {
        match self {
            Token::Let => TokenV::Let,
            Token::If => TokenV::If,
            Token::True => TokenV::True,
            Token::False => TokenV::False,
            Token::Plus => TokenV::Plus,
            Token::Minus => TokenV::Minus,
            Token::Multiply => TokenV::Multiply,
            Token::Divide => TokenV::Divide,
            Token::Equals => TokenV::Equals,
            Token::Type(t) => TokenV::Type(*t),
            Token::LeftParen => TokenV::LeftParen,
            Token::RightParen => TokenV::RightParen,
            Token::LeftBrace => TokenV::LeftBrace,
            Token::RightBrace => TokenV::RightBrace,
            Token::Comma => TokenV::Comma,
            Token::Identifier(s) => TokenV::Identifier(s@),
            Token::Number(n) => TokenV::Number(*n),
            Token::StringLiteral(s) => TokenV::StringLiteral(s@),
            Token::Bool(b) => TokenV::Bool(*b),
        }
    }
}

/// The views of a whole token sequence.
pub open spec fn tokens_v(ts: Seq<Token>) -> Seq<TokenV> {
    Seq::new(ts.len(), |i: int| ts[i]@)
}

/// Represents a parsed expression in the abstract syntax tree (AST)
#[derive(Debug, PartialEq)]
pub enum Expr {
    FuncCall(FuncCall),
    IfStatement(Box<IfStatement>),
    VariableDeclaration(Box<VariableDeclaration>),
    BinExpr(Box<BinExpr>),
    Block(Vec<Expr>),
    Number(i64),
    Bool(Bool),
    Identifier(String),
    StringLiteral(String),
}

/// Represents an if statement in the AST
#[derive(Debug, PartialEq)]
pub struct IfStatement {
    pub comparison: Expr,
    pub block: Vec<Expr>,
}

/// Represents a variable declaration in the AST
#[derive(Debug, PartialEq)]
pub struct VariableDeclaration {
    pub identifier: String,
    pub typ: Option<Type>,
    pub value: Expr,
}

/// Represents a function call in the AST
#[derive(Debug, PartialEq)]
pub struct FuncCall {
    pub name: String,
    pub arguments: Vec<Expr>,
}

/// Represents a binary expression in the AST
#[derive(Debug, PartialEq)]
pub struct BinExpr {
    pub lhs: Expr,
    pub rhs: Expr,
    pub kind: BinOpKind,
}

/// Represents kinds of binary operators
#[derive(Debug, Clone, Copy, PartialEq)]
pub enum BinOpKind {
    Plus,
    Minus,
    Multiply,
    Divide,
}

/// Mathematical value of an expression: strings as character sequences,
/// child lists as sequences.
pub enum ExprV {
    FuncCall(FuncCallV),
    IfStatement(Box<IfStatementV>),
    VariableDeclaration(Box<DeclV>),
    BinExpr(Box<BinExprV>),
    Block(Seq<ExprV>),
    Number(i64),
    Bool(Bool),
    Identifier(Seq<char>),
    StringLiteral(Seq<char>),
}

/// Mathematical value of an if statement.
pub struct IfStatementV {
    pub comparison: ExprV,
    pub block: Seq<ExprV>,
}

/// Mathematical value of a variable declaration.
pub struct DeclV {
    pub identifier: Seq<char>,
    pub typ: Option<Type>,
    pub value: ExprV,
}

/// Mathematical value of a function call.
pub struct FuncCallV {
    pub name: Seq<char>,
    pub arguments: Seq<ExprV>,
}

/// Mathematical value of a binary expression.
pub struct BinExprV {
    pub lhs: ExprV,
    pub rhs: ExprV,
    pub kind: BinOpKind,
}

/// The mathematical value of an expression.
pub open spec fn expr_v(e: Expr) -> ExprV
    decreases e,
{
    match e {
        Expr::FuncCall(fc) => ExprV::FuncCall(
            FuncCallV {
                name: fc.name@,
                arguments: Seq::new(
                    fc.arguments@.len(),
                    |i: int|
                        if 0 <= i < fc.arguments@.len() {
                            expr_v(fc.arguments@[i])
                        } else {
                            ExprV::Number(0)
                        },
                ),
            },
        ),
        Expr::IfStatement(s) => ExprV::IfStatement(
            Box::new(
                IfStatementV {
                    comparison: expr_v(s.comparison),
                    block: Seq::new(
                        s.block@.len(),
                        |i: int|
                            if 0 <= i < s.block@.len() {
                                expr_v(s.block@[i])
                            } else {
                                ExprV::Number(0)
                            },
                    ),
                },
            ),
        ),
        Expr::VariableDeclaration(d) => ExprV::VariableDeclaration(
            Box::new(DeclV { identifier: d.identifier@, typ: d.typ, value: expr_v(d.value) }),
        ),
        Expr::BinExpr(b) => ExprV::BinExpr(
            Box::new(BinExprV { lhs: expr_v(b.lhs), rhs: expr_v(b.rhs), kind: b.kind }),
        ),
        Expr::Block(es) => ExprV::Block(
            Seq::new(
                es@.len(),
                |i: int|
                    if 0 <= i < es@.len() {
                        expr_v(es@[i])
                    } else {
                        ExprV::Number(0)
                    },
            ),
        ),
        Expr::Number(n) => ExprV::Number(n),
        Expr::Bool(b) => ExprV::Bool(b),
        Expr::Identifier(s) => ExprV::Identifier(s@),
        Expr::StringLiteral(s) => ExprV::StringLiteral(s@),
    }
}

/// The mathematical values of a list of expressions.
pub open spec fn exprs_v(es: Seq<Expr>) -> Seq<ExprV> {
    Seq::new(es.len(), |i: int| expr_v(es[i]))
}

/// Whether a declared type is compatible with a value expression, as checked
/// at a declaration: a string literal checks against `str`, a number or a
/// binary expression against any of the numeric types `int`, `long`,
/// `float` and `double`, a boolean literal against `bool`. The
/// absent-type marker matches nothing as a declared type.
pub open spec fn type_check_v(var_type: Type, value: ExprV) -> bool {
    match (var_type, value) {
        (Type::Str, ExprV::StringLiteral(_)) => true,
        (Type::Int, ExprV::Number(_)) => true,
        (Type::Int, ExprV::BinExpr(_)) => true,
        (Type::Long, ExprV::Number(_)) => true,
        (Type::Long, ExprV::BinExpr(_)) => true,
        (Type::Float, ExprV::Number(_)) => true,
        (Type::Float, ExprV::BinExpr(_)) => true,
        (Type::Double, ExprV::Number(_)) => true,
        (Type::Double, ExprV::BinExpr(_)) => true,
        (Type::Bool, ExprV::Bool(_)) => true,
        _ => false,
    }
}

/// Checks a declared type against the expression whose value the variable
/// will hold.
pub fn type_check(var_type: &Type, value: &Expr) -> (r: bool)
    ensures
        r == type_check_v(*var_type, expr_v(*value)),
{
    match (var_type, value) {
        (Type::Str, Expr::StringLiteral(_)) => true,
        (Type::Int, Expr::Number(_)) => true,
        (Type::Int, Expr::BinExpr(_)) => true,
        (Type::Long, Expr::Number(_)) => true,
        (Type::Long, Expr::BinExpr(_)) => true,
        (Type::Float, Expr::Number(_)) => true,
        (Type::Float, Expr::BinExpr(_)) => true,
        (Type::Double, Expr::Number(_)) => true,
        (Type::Double, Expr::BinExpr(_)) => true,
        (Type::Bool, Expr::Bool(_)) => true,
        _ => false,
    }
}

/// The opcode name a binary operator lowers to.
pub open spec fn binop_str(k: BinOpKind) -> Seq<char> {
    match k {
        BinOpKind::Plus => "add"@,
        BinOpKind::Minus => "sub"@,
        BinOpKind::Multiply => "mul"@,
        BinOpKind::Divide => "div"@,
    }
}

impl BinOpKind {
    /// Returns a string representation of the binary operation
    pub fn to_str(&self) -> (r: &str)
        ensures
            r@ == binop_str(*self),
    {
        match self {
            BinOpKind::Plus => "add",
            BinOpKind::Minus => "sub",
            BinOpKind::Multiply => "mul",
            BinOpKind::Divide => "div",
        }
    }
}

/// Represents variables: the value kinds a binding can hold.
#[derive(Debug, Clone, PartialEq)]
pub enum Variable {
    Number(i64),
    StringLiteral(String),
    Bool(Bool),
}

/// Mathematical value of a stored variable.
pub enum VarV {
    Number(i64),
    StringLiteral(Seq<char>),
    Bool(Bool),
}

/// The mathematical value of a stored variable.
pub open spec fn var_v(v: Variable) -> VarV {
    match v {
        Variable::Number(n) => VarV::Number(n),
        Variable::StringLiteral(s) => VarV::StringLiteral(s@),
        Variable::Bool(b) => VarV::Bool(b),
    }
}

/// The map denoted by an association list, later entries winning.
pub open spec fn map_of(s: Seq<(String, Variable)>) -> Map<Seq<char>, VarV>
    decreases s.len(),
{
    if s.len() == 0 {
        Map::empty()
    } else {
        map_of(s.drop_last()).insert(s.last().0@, var_v(s.last().1))
    }
}

/// A mapping from identifiers to stored variables with last-write-wins
/// semantics: redeclaring an identifier silently replaces its prior binding.
/// There is exactly one flat scope.
pub struct VarMap {
    pairs: Vec<(String, Variable)>,
}

impl View for VarMap {
    type V = Map<Seq<char>, VarV>;

    closed spec fn view(&self) -> Map<Seq<char>, VarV> {
        map_of(self.pairs@)
    }
}

impl VarMap {
    /// An empty mapping.
    pub fn new() -> (r: VarMap)
        ensures
            r@ == Map::<Seq<char>, VarV>::empty(),
    {
        VarMap { pairs: Vec::new() }
    }

    /// Inserts or overwrites the binding for `key`.
    pub fn insert(&mut self, key: String, value: Variable)
        ensures
            final(self)@ == old(self)@.insert(key@, var_v(value)),
    {
        let ghost oldpairs = self.pairs@;
        let ghost k = key@;
        let ghost vv = var_v(value);
        self.pairs.push((key, value));
        proof {
            assert(self.pairs@.drop_last() =~= oldpairs);
        }
    }

    /// Looks the binding for `key` up.
    pub fn get(&self, key: &String) -> (r: Option<&Variable>)
        ensures
            match r {
                Some(v) => self@.contains_key(key@) && var_v(*v) == self@[key@],
                None => !self@.contains_key(key@),
            },
    {
        let mut j = self.pairs.len();
        proof {
            assert(self.pairs@.take(j as int) =~= self.pairs@);
        }
        while j > 0
            invariant
                j <= self.pairs.len(),
                map_of(self.pairs@).contains_key(key@) <==> map_of(
                    self.pairs@.take(j as int),
                ).contains_key(key@),
                map_of(self.pairs@).contains_key(key@) ==> map_of(self.pairs@.take(j as int))[key@]
                    == map_of(self.pairs@)[key@],
            decreases j,
        {
            let jj = j - 1;
            proof {
                assert(self.pairs@.take(jj + 1).drop_last() =~= self.pairs@.take(jj as int));
                assert(self.pairs@.take(jj + 1).last() == self.pairs@[jj as int]);
            }
            if self.pairs[jj].0 == *key {
                return Some(&self.pairs[jj].1);
            }
            j = jj;
        }
        proof {
            assert(self.pairs@.take(0) =~= Seq::<(String, Variable)>::empty());
        }
        None
    }
}


// ---------------------------------------------------------------------------
// Lexing: the mathematical model
// ---------------------------------------------------------------------------

/// Whitespace that the lexer skips between tokens within a line.
pub open spec fn is_space_c(c: char) -> bool {
    c == ' ' || c == '\t' || c == '\r'
}

/// An ASCII decimal digit.
pub open spec fn is_digit_c(c: char) -> bool {
    48 <= c as u32 && c as u32 <= 57
}

/// An ASCII letter. The lexer's character classes are ASCII throughout:
/// a letter outside ASCII matches no rule and stops the pass.
pub open spec fn is_alpha_c(c: char) -> bool {
    (65 <= c as u32 && c as u32 <= 90) || (97 <= c as u32 && c as u32 <= 122)
}

/// An ASCII letter or digit; a keyword must not be followed by one.
pub open spec fn is_alnum_c(c: char) -> bool {
    is_digit_c(c) || is_alpha_c(c)
}

/// A character that may start an identifier.
pub open spec fn is_ident_start_c(c: char) -> bool {
    is_alpha_c(c) || c == '_'
}

/// A character that may continue an identifier.
pub open spec fn is_ident_c(c: char) -> bool {
    is_alnum_c(c) || c == '_'
}

/// Length of the leading run of decimal digits.
pub open spec fn digit_run_len(s: Seq<char>) -> nat
    decreases s.len(),
{
    if s.len() == 0 || !is_digit_c(s[0]) {
        0
    } else {
        1 + digit_run_len(s.skip(1))
    }
}

/// Length of the leading run of identifier characters.
pub open spec fn ident_run_len(s: Seq<char>) -> nat
    decreases s.len(),
{
    if s.len() == 0 || !is_ident_c(s[0]) {
        0
    } else {
        1 + ident_run_len(s.skip(1))
    }
}

/// Index of the first occurrence of `c`, or `-1` if there is none.
pub open spec fn find_char(s: Seq<char>, c: char) -> int
    decreases s.len(),
{
    if s.len() == 0 {
        -1
    } else if s[0] == c {
        0
    } else {
        let r = find_char(s.skip(1), c);
        if r < 0 {
            -1
        } else {
            1 + r
        }
    }
}

/// The numeric value of a digit string (most significant digit first).
pub open spec fn digits_val(ds: Seq<char>) -> int
    decreases ds.len(),
{
    if ds.len() == 0 {
        0
    } else {
        digits_val(ds.drop_last()) * 10 + (ds.last() as u32 - 48)
    }
}

/// Powers of ten.
pub open spec fn pow10(k: nat) -> int
    decreases k,
{
    if k == 0 {
        1
    } else {
        10 * pow10((k - 1) as nat)
    }
}

/// The text with its leading whitespace removed.
pub open spec fn trim_start_v(s: Seq<char>) -> Seq<char>
    decreases s.len(),
{
    if s.len() > 0 && is_space_c(s[0]) {
        trim_start_v(s.skip(1))
    } else {
        s
    }
}

/// The text with its trailing whitespace removed.
pub open spec fn trim_end_v(s: Seq<char>) -> Seq<char>
    decreases s.len(),
{
    if s.len() > 0 && is_space_c(s.last()) {
        trim_end_v(s.drop_last())
    } else {
        s
    }
}

/// Whether `kw` stands at the start of `s` as a whole keyword: as a prefix
/// followed by the end of the text or by a character that is not a letter or
/// digit. The boundary is deliberately any non-alphanumeric character, not
/// only whitespace: `true)` inside a call is the boolean literal, and an
/// underscore also ends a keyword, so `int_x` lexes as the `int` type
/// followed by the identifier `_x`.
pub open spec fn kw_at(s: Seq<char>, kw: Seq<char>) -> bool {
    s.len() >= kw.len() && s.take(kw.len() as int) == kw && (s.len() == kw.len()
        || !is_alnum_c(s[kw.len() as int]))
}

/// The keyword or declared-type token at the start of the text, if any,
/// tried in the lexer's table order.
pub open spec fn keyword_token(s: Seq<char>) -> Option<TokenV> {
    if kw_at(s, "let"@) {
        Some(TokenV::Let)
    } else if kw_at(s, "if"@) {
        Some(TokenV::If)
    } else if kw_at(s, "int"@) {
        Some(TokenV::Type(Type::Int))
    } else if kw_at(s, "str"@) {
        Some(TokenV::Type(Type::Str))
    } else if kw_at(s, "bool"@) {
        Some(TokenV::Type(Type::Bool))
    } else if kw_at(s, "long"@) {
        Some(TokenV::Type(Type::Long))
    } else if kw_at(s, "true"@) {
        Some(TokenV::True)
    } else if kw_at(s, "false"@) {
        Some(TokenV::False)
    } else if kw_at(s, "float"@) {
        Some(TokenV::Type(Type::Float))
    } else if kw_at(s, "double"@) {
        Some(TokenV::Type(Type::Double))
    } else {
        None
    }
}

/// The token for a single operator or punctuation character, if any.
pub open spec fn single_char_token(c: char) -> Option<TokenV> {
    if c == '+' {
        Some(TokenV::Plus)
    } else if c == '-' {
        Some(TokenV::Minus)
    } else if c == '*' {
        Some(TokenV::Multiply)
    } else if c == '/' {
        Some(TokenV::Divide)
    } else if c == '(' {
        Some(TokenV::LeftParen)
    } else if c == ')' {
        Some(TokenV::RightParen)
    } else if c == '{' {
        Some(TokenV::LeftBrace)
    } else if c == '}' {
        Some(TokenV::RightBrace)
    } else if c == '=' {
        Some(TokenV::Equals)
    } else if c == ',' {
        Some(TokenV::Comma)
    } else {
        None
    }
}

/// The token recognized at the start of the remaining line text, if any.
/// The rules are tried in priority order: keyword, number, string literal,
/// identifier, single-character token. A run of digits whose value exceeds
/// `i64::MAX` matches no rule.
pub open spec fn token_from_v(s: Seq<char>) -> Option<TokenV> {
    if keyword_token(s) is Some {
        keyword_token(s)
    } else if s.len() > 0 && is_digit_c(s[0]) {
        let run = s.take(digit_run_len(s) as int);
        if digits_val(run) <= i64::MAX as int {
            Some(TokenV::Number(digits_val(run) as i64))
        } else {
            None
        }
    } else if s.len() > 0 && s[0] == '"' && find_char(s.skip(1), '"') >= 0 {
        Some(TokenV::StringLiteral(s.skip(1).take(find_char(s.skip(1), '"'))))
    } else if s.len() > 0 && is_ident_start_c(s[0]) {
        Some(TokenV::Identifier(s.take(ident_run_len(s) as int)))
    } else if s.len() > 0 && single_char_token(s[0]) is Some {
        single_char_token(s[0])
    } else {
        None
    }
}

/// The length of a token as it appeared in the source text, in characters.
/// A number's length is that of its canonical decimal text, so a number
/// written with leading zeros reports fewer characters than were scanned.
pub open spec fn token_len_v(t: TokenV) -> nat {
    match t {
        TokenV::Let => 3,
        TokenV::If => 2,
        TokenV::StringLiteral(s) => s.len() + 2,
        TokenV::Number(n) => dec_i64(n as int).len(),
        TokenV::Identifier(s) => s.len(),
        TokenV::LeftParen => 1,
        TokenV::RightParen => 1,
        TokenV::LeftBrace => 1,
        TokenV::RightBrace => 1,
        TokenV::Plus => 1,
        TokenV::Minus => 1,
        TokenV::Multiply => 1,
        TokenV::Divide => 1,
        TokenV::Equals => 1,
        TokenV::Comma => 1,
        TokenV::Type(Type::Int) => 3,
        TokenV::Type(Type::Str) => 3,
        TokenV::Type(Type::Long) => 4,
        TokenV::Type(Type::Float) => 5,
        TokenV::Type(Type::Double) => 6,
        TokenV::Type(Type::Bool) => 4,
        TokenV::Type(Type::NoType) => 0,
        TokenV::Bool(Bool::True) => 4,
        TokenV::Bool(Bool::False) => 5,
        TokenV::True => 4,
        TokenV::False => 5,
    }
}

/// The tokens of one already-trimmed line, or the error that aborts the
/// whole lexical pass: the lexer stops at the first text no rule matches.
pub open spec fn lex_rest(rem: Seq<char>) -> Result<Seq<TokenV>, ErrV>
    decreases rem.len(),
{
    if rem.len() == 0 {
        Ok(Seq::empty())
    } else {
        match token_from_v(rem) {
            Option::None => Err(ErrV::SyntaxError("Unexpected token: "@ + rem)),
            Option::Some(t) => {
                let l = token_len_v(t);
                if 1 <= l <= rem.len() {
                    let rem2 = trim_start_v(rem.skip(l as int));
                    if rem2.len() < rem.len() {
                        match lex_rest(rem2) {
                            Ok(ts) => Ok(seq![t] + ts),
                            Err(e) => Err(e),
                        }
                    } else {
                        // a recognized token always consumes at least one
                        // character, so this branch cannot be reached
                        Err(ErrV::Generic(Seq::empty()))
                    }
                } else {
                    Err(ErrV::Generic(Seq::empty()))
                }
            },
        }
    }
}

/// The tokens of one raw line.
pub open spec fn lex_line(line: Seq<char>) -> Result<Seq<TokenV>, ErrV> {
    lex_rest(trim_start_v(trim_end_v(line)))
}

/// Index of the first newline at or after `i`, or the text's length.
pub open spec fn next_nl(s: Seq<char>, i: int) -> int
    decreases s.len() - i,
{
    if i >= s.len() {
        s.len() as int
    } else if s[i] == '\n' {
        i
    } else {
        next_nl(s, i + 1)
    }
}

/// The lines of the text from position `i` on, split at newlines; a carriage
/// return directly before a newline is dropped, and a final newline ends the
/// last line rather than opening an empty one.
pub open spec fn lines_from(s: Seq<char>, i: int) -> Seq<Seq<char>>
    decreases s.len() - i,
{
    if i >= s.len() {
        Seq::empty()
    } else {
        let j = next_nl(s, i);
        if j >= s.len() {
            seq![s.subrange(i, s.len() as int)]
        } else if i <= j {
            let line = if j > i && s[j - 1] == '\r' {
                s.subrange(i, j - 1)
            } else {
                s.subrange(i, j)
            };
            seq![line] + lines_from(s, j + 1)
        } else {
            // the next newline is never before the start position
            Seq::empty()
        }
    }
}

/// The tokens of a list of lines, concatenated; the first failing line
/// aborts the pass with its error.
pub open spec fn lex_lines(ls: Seq<Seq<char>>) -> Result<Seq<TokenV>, ErrV>
    decreases ls.len(),
{
    if ls.len() == 0 {
        Ok(Seq::empty())
    } else {
        match lex_line(ls[0]) {
            Ok(ts) => match lex_lines(ls.skip(1)) {
                Ok(rest) => Ok(ts + rest),
                Err(e) => Err(e),
            },
            Err(e) => Err(e),
        }
    }
}

/// The token sequence of a whole source text, or the first lexical error.
pub open spec fn lex_v(s: Seq<char>) -> Result<Seq<TokenV>, ErrV> {
    lex_lines(lines_from(s, 0))
}

// ---------------------------------------------------------------------------
// Lexing: lemmas
// ---------------------------------------------------------------------------

/// The leading digit run is a run: made of digits, maximal, within bounds.
proof fn lemma_digit_run_props(s: Seq<char>)
    ensures
        digit_run_len(s) <= s.len(),
        forall|k: int| 0 <= k < digit_run_len(s) ==> is_digit_c(s[k]),
        digit_run_len(s) < s.len() ==> !is_digit_c(s[digit_run_len(s) as int]),
    decreases s.len(),
{
    if s.len() > 0 && is_digit_c(s[0]) {
        lemma_digit_run_props(s.skip(1));
        assert forall|k: int| 0 <= k < digit_run_len(s) implies is_digit_c(s[k]) by {
            if k > 0 {
                assert(is_digit_c(s.skip(1)[k - 1]));
            }
        }
    }
}

/// A position that looks like the end of the digit run is the end.
proof fn lemma_digit_run_char(s: Seq<char>, j: int)
    requires
        0 <= j <= s.len(),
        forall|k: int| 0 <= k < j ==> is_digit_c(s[k]),
        j == s.len() || !is_digit_c(s[j]),
    ensures
        digit_run_len(s) == j,
{
    lemma_digit_run_props(s);
}

/// The leading identifier run is a run.
proof fn lemma_ident_run_props(s: Seq<char>)
    ensures
        ident_run_len(s) <= s.len(),
        forall|k: int| 0 <= k < ident_run_len(s) ==> is_ident_c(s[k]),
        ident_run_len(s) < s.len() ==> !is_ident_c(s[ident_run_len(s) as int]),
    decreases s.len(),
{
    if s.len() > 0 && is_ident_c(s[0]) {
        lemma_ident_run_props(s.skip(1));
        assert forall|k: int| 0 <= k < ident_run_len(s) implies is_ident_c(s[k]) by {
            if k > 0 {
                assert(is_ident_c(s.skip(1)[k - 1]));
            }
        }
    }
}

/// A position that looks like the end of the identifier run is the end.
proof fn lemma_ident_run_char(s: Seq<char>, j: int)
    requires
        0 <= j <= s.len(),
        forall|k: int| 0 <= k < j ==> is_ident_c(s[k]),
        j == s.len() || !is_ident_c(s[j]),
    ensures
        ident_run_len(s) == j,
{
    lemma_ident_run_props(s);
}

/// What `find_char` returns: the first position holding `c`, or `-1`.
proof fn lemma_find_char_props(s: Seq<char>, c: char)
    ensures
        -1 <= find_char(s, c) < s.len(),
        find_char(s, c) >= 0 ==> s[find_char(s, c)] == c,
        forall|k: int| 0 <= k < find_char(s, c) ==> s[k] != c,
        find_char(s, c) == -1 ==> forall|k: int| 0 <= k < s.len() ==> s[k] != c,
    decreases s.len(),
{
    if s.len() == 0 {
    } else if s[0] == c {
    } else {
        lemma_find_char_props(s.skip(1), c);
        let r = find_char(s.skip(1), c);
        if r >= 0 {
            assert(s[1 + r] == s.skip(1)[r]);
            assert forall|k: int| 0 <= k < 1 + r implies s[k] != c by {
                if k > 0 {
                    assert(s.skip(1)[k - 1] != c);
                }
            }
        } else {
            assert forall|k: int| 0 <= k < s.len() implies s[k] != c by {
                if k > 0 {
                    assert(s.skip(1)[k - 1] != c);
                }
            }
        }
    }
}

/// A position that looks like the first occurrence of `c` is it.
proof fn lemma_find_char_at(s: Seq<char>, c: char, j: int)
    requires
        0 <= j <= s.len(),
        forall|k: int| 0 <= k < j ==> s[k] != c,
        j == s.len() || s[j] == c,
    ensures
        find_char(s, c) == if j == s.len() { -1int } else { j },
{
    lemma_find_char_props(s, c);
}

/// Trimming the start removes exactly the leading whitespace.
proof fn lemma_trim_start_char(s: Seq<char>, p: int)
    requires
        0 <= p <= s.len(),
        forall|k: int| 0 <= k < p ==> is_space_c(s[k]),
        p == s.len() || !is_space_c(s[p]),
    ensures
        trim_start_v(s) == s.skip(p),
    decreases p,
{
    if p == 0 {
        assert(s.skip(0) =~= s);
    } else {
        assert(is_space_c(s[0]));
        lemma_trim_start_char(s.skip(1), p - 1);
        assert(s.skip(1).skip(p - 1) =~= s.skip(p));
    }
}

/// Trimming the end removes exactly the trailing whitespace.
proof fn lemma_trim_end_char(s: Seq<char>, m: int)
    requires
        0 <= m <= s.len(),
        forall|k: int| m <= k < s.len() ==> is_space_c(s[k]),
        m == 0 || !is_space_c(s[m - 1]),
    ensures
        trim_end_v(s) == s.take(m),
    decreases s.len(),
{
    if m == s.len() {
        if s.len() == 0 {
            assert(s.take(0) =~= s);
        } else {
            assert(!is_space_c(s.last()));
            assert(s.take(m) =~= s);
        }
    } else {
        assert(is_space_c(s.last()));
        lemma_trim_end_char(s.drop_last(), m);
        assert(s.drop_last().take(m) =~= s.take(m));
    }
}

/// A position that looks like the next newline is it.
proof fn lemma_next_nl_char(s: Seq<char>, i: int, j: int)
    requires
        0 <= i <= j <= s.len(),
        forall|k: int| i <= k < j ==> s[k] != '\n',
        j == s.len() || s[j] == '\n',
    ensures
        next_nl(s, i) == j,
    decreases j - i,
{
    if i < j {
        lemma_next_nl_char(s, i + 1, j);
    }
}

/// A digit string's value is nonnegative and below ten to its length.
proof fn lemma_digits_val_bounds(ds: Seq<char>)
    requires
        forall|k: int| 0 <= k < ds.len() ==> is_digit_c(ds[k]),
    ensures
        0 <= digits_val(ds) < pow10(ds.len()),
    decreases ds.len(),
{
    if ds.len() > 0 {
        assert(forall|k: int|
            0 <= k < ds.drop_last().len() ==> is_digit_c(ds.drop_last()[k]));
        lemma_digits_val_bounds(ds.drop_last());
        assert(is_digit_c(ds.last()));
    }
}

/// Extending a digit string does not shrink its value.
proof fn lemma_digits_val_prefix(ds: Seq<char>, k: int)
    requires
        0 <= k <= ds.len(),
        forall|j: int| 0 <= j < ds.len() ==> is_digit_c(ds[j]),
    ensures
        digits_val(ds.take(k)) <= digits_val(ds),
    decreases ds.len() - k,
{
    if k == ds.len() {
        assert(ds.take(k) =~= ds);
    } else {
        assert(forall|j: int| 0 <= j < ds.take(k).len() ==> is_digit_c(ds.take(k)[j]));
        lemma_digits_val_bounds(ds.take(k));
        assert(ds.take(k + 1).drop_last() =~= ds.take(k));
        assert(ds.take(k + 1).last() == ds[k]);
        assert(is_digit_c(ds[k]));
        assert(digits_val(ds.take(k)) <= digits_val(ds.take(k + 1)));
        lemma_digits_val_prefix(ds, k + 1);
    }
}

/// The decimal text of a number below ten to the `k` has at most `k` digits.
proof fn lemma_dec_len(n: nat, k: nat)
    requires
        n < pow10(k),
        k >= 1,
    ensures
        dec_digits(n).len() <= k,
    decreases k,
{
    if n < 10 {
    } else {
        if k == 1 {
            assert(pow10(0) == 1);
            assert(pow10(1) == 10);
            assert(false);
        } else {
            assert(pow10(k) == 10 * pow10((k - 1) as nat));
            lemma_dec_len((n / 10) as nat, (k - 1) as nat);
        }
    }
}

/// The decimal text of a number is never empty.
proof fn lemma_dec_digits_pos(n: nat)
    ensures
        dec_digits(n).len() >= 1,
    decreases n,
{
    if n >= 10 {
        lemma_dec_digits_pos((n / 10) as nat);
    }
}

/// A recognized token covers at least one and at most all of the remaining
/// characters.
proof fn lemma_token_from_len(rem: Seq<char>)
    requires
        token_from_v(rem) is Some,
    ensures
        1 <= token_len_v(token_from_v(rem)->Some_0) <= rem.len(),
{
    reveal_strlit("let");
    reveal_strlit("if");
    reveal_strlit("int");
    reveal_strlit("str");
    reveal_strlit("bool");
    reveal_strlit("long");
    reveal_strlit("true");
    reveal_strlit("false");
    reveal_strlit("float");
    reveal_strlit("double");
    if keyword_token(rem) is Some {
    } else if rem.len() > 0 && is_digit_c(rem[0]) {
        lemma_digit_run_props(rem);
        let run = rem.take(digit_run_len(rem) as int);
        assert(digit_run_len(rem) >= 1);
        assert(forall|k: int| 0 <= k < run.len() ==> is_digit_c(run[k]));
        lemma_digits_val_bounds(run);
        let v = digits_val(run);
        if v <= i64::MAX as int {
            assert(dec_i64(v) == dec_digits(v as nat));
            lemma_dec_len(v as nat, run.len());
            lemma_dec_digits_pos(v as nat);
        }
    } else if rem.len() > 0 && rem[0] == '"' && find_char(rem.skip(1), '"') >= 0 {
        lemma_find_char_props(rem.skip(1), '"');
    } else if rem.len() > 0 && is_ident_start_c(rem[0]) {
        lemma_ident_run_props(rem);
        assert(ident_run_len(rem) >= 1);
    } else {
    }
}


// ---------------------------------------------------------------------------
// Lexing: executable code
// ---------------------------------------------------------------------------

fn space_c(c: char) -> (r: bool)
    ensures
        r == is_space_c(c),
{
    c == ' ' || c == '\t' || c == '\r'
}

fn digit_c(c: char) -> (r: bool)
    ensures
        r == is_digit_c(c),
{
    let u = c as u32;
    48 <= u && u <= 57
}

fn alnum_c(c: char) -> (r: bool)
    ensures
        r == is_alnum_c(c),
{
    let u = c as u32;
    (48 <= u && u <= 57) || (65 <= u && u <= 90) || (97 <= u && u <= 122)
}

fn ident_start_c(c: char) -> (r: bool)
    ensures
        r == is_ident_start_c(c),
{
    let u = c as u32;
    (65 <= u && u <= 90) || (97 <= u && u <= 122) || c == '_'
}

fn ident_c(c: char) -> (r: bool)
    ensures
        r == is_ident_c(c),
{
    alnum_c(c) || c == '_'
}

/// Whether `kw` stands at the start of `s` as a whole keyword.
fn kw_check(s: &str, n: usize, kw: &str, kwlen: usize) -> (r: bool)
    requires
        n == s@.len(),
        kwlen == kw@.len(),
    ensures
        r == kw_at(s@, kw@),
{
    if n < kwlen {
        return false;
    }
    let p = s.substring_char(0, kwlen);
    let same = String::from_str(p) == String::from_str(kw);
    proof {
        assert(p@ =~= s@.take(kwlen as int));
    }
    if !same {
        return false;
    }
    if n == kwlen {
        return true;
    }
    let c = s.get_char(kwlen);
    !alnum_c(c)
}

impl Token {
    /// Parses the token standing at the start of the remaining line text,
    /// if some lexical rule matches it.
    pub fn from_str(s: &str) -> (r: Option<Token>)
        ensures
            match r {
                Some(t) => token_from_v(s@) == Some(t@),
                None => token_from_v(s@) is None,
            },
    {
        let n = s.unicode_len();
        proof {
            reveal_strlit("let");
            reveal_strlit("if");
            reveal_strlit("int");
            reveal_strlit("str");
            reveal_strlit("bool");
            reveal_strlit("long");
            reveal_strlit("true");
            reveal_strlit("false");
            reveal_strlit("float");
            reveal_strlit("double");
        }
        // Keywords and types, in the table's order
        if kw_check(s, n, "let", 3) {
            return Some(Token::Let);
        }
        if kw_check(s, n, "if", 2) {
            return Some(Token::If);
        }
        if kw_check(s, n, "int", 3) {
            return Some(Token::Type(Type::Int));
        }
        if kw_check(s, n, "str", 3) {
            return Some(Token::Type(Type::Str));
        }
        if kw_check(s, n, "bool", 4) {
            return Some(Token::Type(Type::Bool));
        }
        if kw_check(s, n, "long", 4) {
            return Some(Token::Type(Type::Long));
        }
        if kw_check(s, n, "true", 4) {
            return Some(Token::True);
        }
        if kw_check(s, n, "false", 5) {
            return Some(Token::False);
        }
        if kw_check(s, n, "float", 5) {
            return Some(Token::Type(Type::Float));
        }
        if kw_check(s, n, "double", 6) {
            return Some(Token::Type(Type::Double));
        }
        // A maximal run of digits, read as a 64-bit number
        if n > 0 && digit_c(s.get_char(0)) {
            let mut j: usize = 1;
            while j < n && digit_c(s.get_char(j))
                invariant
                    1 <= j <= n,
                    n == s@.len(),
                    forall|k: int| 0 <= k < j ==> is_digit_c(s@[k]),
                decreases n - j,
            {
                j = j + 1;
            }
            proof {
                lemma_digit_run_char(s@, j as int);
            }
            let ghost run = s@.take(j as int);
            proof {
                assert(forall|k: int| 0 <= k < run.len() ==> is_digit_c(run[k]));
                lemma_digits_val_bounds(run);
            }
            let mut v: u64 = 0;
            let mut k: usize = 0;
            let mut too_big = false;
            while k < j
                invariant
                    0 <= k <= j <= n,
                    n == s@.len(),
                    forall|t: int| 0 <= t < j ==> is_digit_c(s@[t]),
                    run == s@.take(j as int),
                    !too_big ==> v as int == digits_val(s@.take(k as int)) && v <= i64::MAX as u64,
                    too_big ==> digits_val(run) > i64::MAX as int,
                decreases j - k,
            {
                let c = s.get_char(k);
                let d = (c as u32 - 48) as u64;
                if !too_big {
                    proof {
                        assert(s@.take(k + 1).drop_last() =~= s@.take(k as int));
                        assert(s@.take(k + 1).last() == s@[k as int]);
                    }
                    if v > (9223372036854775807u64 - d) / 10 {
                        too_big = true;
                        proof {
                            assert(digits_val(s@.take(k + 1)) == v * 10 + d);
                            assert(digits_val(s@.take(k + 1)) > i64::MAX as int);
                            assert(forall|t: int| 0 <= t < run.len() ==> is_digit_c(run[t]));
                            lemma_digits_val_prefix(run, k + 1);
                            assert(run.take(k + 1) =~= s@.take(k + 1));
                        }
                    } else {
                        v = v * 10 + d;
                    }
                }
                k = k + 1;
            }
            if too_big {
                return None;
            }
            proof {
                assert(s@.take(k as int) == run);
            }
            return Some(Token::Number(v as i64));
        }
        // A double-quote-delimited string literal
        if n > 0 && s.get_char(0) == '"' {
            let mut j: usize = 1;
            while j < n && s.get_char(j) != '"'
                invariant
                    1 <= j <= n,
                    n == s@.len(),
                    forall|k: int| 1 <= k < j ==> s@[k] != '"',
                decreases n - j,
            {
                j = j + 1;
            }
            proof {
                let t = s@.skip(1);
                assert forall|k: int| 0 <= k < j - 1 implies t[k] != '"' by {
                    assert(t[k] == s@[k + 1]);
                }
                if j < n {
                    assert(t[j - 1] == s@[j as int]);
                }
                lemma_find_char_at(t, '"', (j - 1) as int);
            }
            if j < n {
                let content = s.substring_char(1, j);
                proof {
                    assert(content@ =~= s@.skip(1).take(j - 1));
                }
                return Some(Token::StringLiteral(content.to_owned()));
            }
            return None;
        }
        // An identifier: letters, digits and underscores, led by a letter
        // or underscore
        if n > 0 && ident_start_c(s.get_char(0)) {
            let mut j: usize = 1;
            while j < n && ident_c(s.get_char(j))
                invariant
                    1 <= j <= n,
                    n == s@.len(),
                    forall|k: int| 0 <= k < j ==> is_ident_c(s@[k]),
                decreases n - j,
            {
                j = j + 1;
            }
            proof {
                lemma_ident_run_char(s@, j as int);
            }
            let idstr = s.substring_char(0, j);
            proof {
                assert(idstr@ =~= s@.take(j as int));
            }
            return Some(Token::Identifier(idstr.to_owned()));
        }
        // Single-character tokens
        if n > 0 {
            let c = s.get_char(0);
            return match c {
                '+' => Some(Token::Plus),
                '-' => Some(Token::Minus),
                '*' => Some(Token::Multiply),
                '/' => Some(Token::Divide),
                '(' => Some(Token::LeftParen),
                ')' => Some(Token::RightParen),
                '{' => Some(Token::LeftBrace),
                '}' => Some(Token::RightBrace),
                '=' => Some(Token::Equals),
                ',' => Some(Token::Comma),
                _ => None,
            };
        }
        None
    }

    /// Returns the length of the token as it appears in the source, in
    /// characters.
    pub fn len(&self) -> (r: usize)
        requires
            token_len_v(self@) <= usize::MAX,
        ensures
            r as nat == token_len_v(self@),
    {
        match self {
            Token::Let => 3,
            Token::If => 2,
            Token::StringLiteral(s) => s.as_str().unicode_len() + 2,  // includes quotes
            Token::Type(Type::Str) => 3,
            Token::Number(n) => {
                let t = crate::utils::i64_to_string(*n);
                t.as_str().unicode_len()
            },
            Token::Identifier(s) => s.as_str().unicode_len(),
            Token::LeftParen
            | Token::RightParen
            | Token::LeftBrace
            | Token::RightBrace
            | Token::Plus
            | Token::Minus
            | Token::Multiply
            | Token::Divide
            | Token::Equals
            | Token::Comma => 1,
            Token::Type(Type::Int) => 3,
            Token::Type(Type::Long) => 4,
            Token::Type(Type::Float) => 5,
            Token::Type(Type::Double) => 6,
            Token::Type(Type::Bool) => 4,
            Token::Bool(v) => match v {
                Bool::True => 4,
                Bool::False => 5,
            },
            Token::True => 4,
            Token::False => 5,
            Token::Type(Type::NoType) => 0,
        }
    }
}


/// Lexes one raw line (whitespace not yet trimmed), pushing its tokens onto
/// `out`; returns the error aborting the pass instead, if some text matches
/// no rule.
fn lex_segment(line: &str, out: &mut Vec<Token>) -> (r: Option<ErrorType>)
    ensures
        match (r, lex_line(line@)) {
            (Option::None, Ok(ts)) => tokens_v(final(out)@) == tokens_v(old(out)@) + ts,
            (Option::Some(err), Err(ev)) => err@ == ev,
            _ => false,
        },
{
    let n = line.unicode_len();
    // trim trailing whitespace
    let mut e = n;
    while e > 0 && space_c(line.get_char(e - 1))
        invariant
            e <= n,
            n == line@.len(),
            forall|k: int| e <= k < n ==> is_space_c(line@[k]),
        decreases e,
    {
        e = e - 1;
    }
    proof {
        lemma_trim_end_char(line@, e as int);
    }
    // trim leading whitespace
    let mut p: usize = 0;
    while p < e && space_c(line.get_char(p))
        invariant
            p <= e <= n,
            n == line@.len(),
            forall|k: int| 0 <= k < p ==> is_space_c(line@[k]),
        decreases e - p,
    {
        p = p + 1;
    }
    proof {
        let te = line@.take(e as int);
        assert(forall|k: int| 0 <= k < p ==> te[k] == line@[k]);
        lemma_trim_start_char(te, p as int);
        assert(te.skip(p as int) =~= line@.subrange(p as int, e as int));
    }
    let ghost old_len = out@.len();
    proof {
        assert(out@.take(old_len as int) =~= out@);
        assert(tokens_v(out@.skip(old_len as int)) =~= Seq::<TokenV>::empty());
    }
    while p < e
        invariant
            p <= e <= n,
            n == line@.len(),
            out@.len() >= old_len,
            out@.take(old_len as int) == old(out)@,
            match lex_rest(line@.subrange(p as int, e as int)) {
                Ok(ts) => lex_line(line@) == Ok::<Seq<TokenV>, ErrV>(
                    tokens_v(out@.skip(old_len as int)) + ts,
                ),
                Err(err) => lex_line(line@) == Err::<Seq<TokenV>, ErrV>(err),
            },
        decreases e - p,
    {
        let rem = line.substring_char(p, e);
        proof {
            assert(rem@ == line@.subrange(p as int, e as int));
            assert(rem@.len() > 0);
        }
        match Token::from_str(rem) {
            Option::None => {
                let mut m = String::from_str("Unexpected token: ");
                m.append(rem);
                return Some(ErrorType::SyntaxError(m));
            },
            Option::Some(tok) => {
                proof {
                    lemma_token_from_len(rem@);
                }
                let l = tok.len();
                let ghost rem_v = line@.subrange(p as int, e as int);
                let ghost pre = out@;
                out.push(tok);
                let p_old = p;
                p = p + l;
                // skip whitespace before the next token
                while p < e && space_c(line.get_char(p))
                    invariant
                        p_old + l <= p <= e <= n,
                        n == line@.len(),
                        forall|k: int| p_old + l <= k < p ==> is_space_c(line@[k]),
                    decreases e - p,
                {
                    p = p + 1;
                }
                proof {
                    let t = rem_v.skip(l as int);
                    assert(t =~= line@.subrange(p_old + l, e as int));
                    assert(forall|k: int| 0 <= k < p - p_old - l ==> t[k] == line@[p_old + l + k]);
                    lemma_trim_start_char(t, p - p_old - l);
                    assert(t.skip(p - p_old - l) =~= line@.subrange(p as int, e as int));
                    // one step of the model
                    assert(out@.skip(old_len as int) =~= pre.skip(old_len as int).push(tok));
                    assert(tokens_v(pre.skip(old_len as int).push(tok)) =~= tokens_v(
                        pre.skip(old_len as int),
                    ) + seq![tok@]);
                    assert(out@.take(old_len as int) =~= pre.take(old_len as int));
                    match lex_rest(line@.subrange(p as int, e as int)) {
                        Ok(ts) => {
                            assert(lex_rest(rem_v) == Ok::<Seq<TokenV>, ErrV>(seq![tok@] + ts));
                            assert(tokens_v(pre.skip(old_len as int)) + (seq![tok@] + ts) =~= (
                            tokens_v(pre.skip(old_len as int)) + seq![tok@]) + ts);
                        },
                        Err(err) => {
                            assert(lex_rest(rem_v) == Err::<Seq<TokenV>, ErrV>(err));
                        },
                    }
                }
            },
        }
    }
    proof {
        assert(line@.subrange(p as int, e as int) =~= Seq::<char>::empty());
        assert(lex_rest(line@.subrange(p as int, e as int)) == Ok::<Seq<TokenV>, ErrV>(
            Seq::<TokenV>::empty(),
        ));
        match lex_line(line@) {
            Ok(ts) => {
                assert(tokens_v(out@.skip(old_len as int)) + Seq::<TokenV>::empty() =~= tokens_v(
                    out@.skip(old_len as int),
                ));
                assert(tokens_v(out@) =~= tokens_v(out@.take(old_len as int)) + tokens_v(
                    out@.skip(old_len as int),
                ));
            },
            Err(_) => {
                assert(false);
            },
        }
    }
    None
}

/// Converts input text into a vector of tokens, line by line; the whole
/// pass aborts at the first text no lexical rule matches.
#[verifier::rlimit(50)]
pub fn lexer(input: &str) -> (r: Result<Vec<Token>, ErrorType>)
    ensures
        match (r, lex_v(input@)) {
            (Ok(ts), Ok(tv)) => tokens_v(ts@) == tv,
            (Err(e), Err(ev)) => e@ == ev,
            _ => false,
        },
{
    let n = input.unicode_len();
    let mut out: Vec<Token> = Vec::new();
    let mut i: usize = 0;
    proof {
        assert(tokens_v(out@) =~= Seq::<TokenV>::empty());
    }
    while i < n
        invariant
            i <= n,
            n == input@.len(),
            match lex_lines(lines_from(input@, i as int)) {
                Ok(ts) => lex_v(input@) == Ok::<Seq<TokenV>, ErrV>(tokens_v(out@) + ts),
                Err(err) => lex_v(input@) == Err::<Seq<TokenV>, ErrV>(err),
            },
        decreases n - i,
    {
        // find the end of the line
        let mut j = i;
        while j < n && input.get_char(j) != '\n'
            invariant
                i <= j <= n,
                n == input@.len(),
                forall|k: int| i <= k < j ==> input@[k] != '\n',
            decreases n - j,
        {
            j = j + 1;
        }
        proof {
            lemma_next_nl_char(input@, i as int, j as int);
        }
        let jr = if j < n && j > i && input.get_char(j - 1) == '\r' {
            j - 1
        } else {
            j
        };
        let line = input.substring_char(i, jr);
        let ghost pre = out@;
        let ghost ls = lines_from(input@, i as int);
        proof {
            assert(ls[0] == line@);
            if j < n {
                assert(ls.skip(1) =~= lines_from(input@, j + 1));
            } else {
                assert(ls =~= seq![line@]);
                assert(ls.skip(1) =~= Seq::<Seq<char>>::empty());
                assert(lines_from(input@, n as int) =~= Seq::<Seq<char>>::empty());
            }
        }
        let res = lex_segment(line, &mut out);
        match res {
            Option::Some(err) => {
                return Err(err);
            },
            Option::None => {
                proof {
                    match (lex_line(line@), lex_lines(ls.skip(1))) {
                        (Ok(ts0), Ok(ts1)) => {
                            assert(lex_lines(ls) == Ok::<Seq<TokenV>, ErrV>(ts0 + ts1));
                            assert(tokens_v(pre) + (ts0 + ts1) =~= (tokens_v(pre) + ts0) + ts1);
                            assert(tokens_v(out@) == tokens_v(pre) + ts0);
                        },
                        (Ok(_), Err(_)) => {},
                        _ => {
                            assert(false);
                        },
                    }
                }
            },
        }
        if j < n {
            i = j + 1;
        } else {
            i = n;
        }
    }
    proof {
        assert(lines_from(input@, i as int) =~= Seq::<Seq<char>>::empty());
        match lex_v(input@) {
            Ok(tv) => {
                assert(tokens_v(out@) + Seq::<TokenV>::empty() =~= tokens_v(out@));
            },
            Err(_) => {},
        }
    }
    Ok(out)
}


// ---------------------------------------------------------------------------
// Preprocessing: comment stripping
// ---------------------------------------------------------------------------

/// Whether a line opens with `//` and is dropped whole.
pub open spec fn starts_comment(l: Seq<char>) -> bool {
    l.len() >= 2 && l[0] == '/' && l[1] == '/'
}

/// Index of the first `//` in the text, or `-1` if there is none.
pub open spec fn find2(s: Seq<char>) -> int
    decreases s.len(),
{
    if s.len() < 2 {
        -1
    } else if s[0] == '/' && s[1] == '/' {
        0
    } else {
        let r = find2(s.skip(1));
        if r < 0 {
            -1
        } else {
            1 + r
        }
    }
}

/// The line up to its first `//`, if any.
pub open spec fn strip_comment(l: Seq<char>) -> Seq<char> {
    if find2(l) >= 0 {
        l.take(find2(l))
    } else {
        l
    }
}

/// The lines that survive preprocessing: whole-line comments dropped,
/// trailing comments cut off.
pub open spec fn kept_lines(ls: Seq<Seq<char>>) -> Seq<Seq<char>>
    decreases ls.len(),
{
    if ls.len() == 0 {
        Seq::empty()
    } else {
        let rest = kept_lines(ls.skip(1));
        if starts_comment(ls[0]) {
            rest
        } else {
            seq![strip_comment(ls[0])] + rest
        }
    }
}

/// The lines joined with single newlines between them.
pub open spec fn join_nl(ls: Seq<Seq<char>>) -> Seq<char>
    decreases ls.len(),
{
    if ls.len() == 0 {
        Seq::empty()
    } else if ls.len() == 1 {
        ls[0]
    } else {
        ls[0] + seq!['\n'] + join_nl(ls.skip(1))
    }
}

/// The joined lines with a leading newline when any line is left: what
/// remains of a join after its first line.
pub open spec fn nl_join(ls: Seq<Seq<char>>) -> Seq<char> {
    if ls.len() == 0 {
        Seq::empty()
    } else {
        seq!['\n'] + join_nl(ls)
    }
}

/// The preprocessed source: comments stripped, line structure kept.
pub open spec fn preprocess_v(s: Seq<char>) -> Seq<char> {
    join_nl(kept_lines(lines_from(s, 0)))
}

/// A position holding `//` with none before it is the first.
proof fn lemma_find2_found(s: Seq<char>, j: int)
    requires
        0 <= j,
        j + 1 < s.len(),
        s[j] == '/',
        s[j + 1] == '/',
        forall|k: int| 0 <= k < j ==> !((#[trigger] s[k]) == '/' && s[k + 1] == '/'),
    ensures
        find2(s) == j,
    decreases j,
{
    if j > 0 {
        assert(!(s[0] == '/' && s[1] == '/'));
        let t = s.skip(1);
        assert(t[j - 1] == s[j as int] && t[j] == s[j + 1]);
        assert forall|k: int| 0 <= k < j - 1 implies !((#[trigger] t[k]) == '/' && t[k + 1] == '/') by {
            assert(t[k] == s[k + 1] && t[k + 1] == s[k + 2]);
        }
        lemma_find2_found(t, j - 1);
    }
}

/// A text with no `//` pair anywhere has none to find.
proof fn lemma_find2_none(s: Seq<char>)
    requires
        forall|k: int| 0 <= k && k + 1 < s.len() ==> !((#[trigger] s[k]) == '/' && s[k + 1] == '/'),
    ensures
        find2(s) == -1,
    decreases s.len(),
{
    if s.len() >= 2 {
        let t = s.skip(1);
        assert forall|k: int| 0 <= k && k + 1 < t.len() implies !((#[trigger] t[k]) == '/' && t[k + 1]
            == '/') by {
            assert(t[k] == s[k + 1] && t[k + 1] == s[k + 2]);
        }
        lemma_find2_none(t);
    }
}

/// Prepares source code for further processing: strips full-line and
/// trailing `//` comments, rejoining the remaining line parts with
/// newlines.
#[verifier::rlimit(100)]
pub fn preprocess(code: &str) -> (r: String)
    ensures
        r@ == preprocess_v(code@),
{
    let n = code.unicode_len();
    let mut out = String::new();
    let mut first = true;
    let mut i: usize = 0;
    while i < n
        invariant
            i <= n,
            n == code@.len(),
            first ==> out@ == Seq::<char>::empty(),
            first ==> preprocess_v(code@) == join_nl(kept_lines(lines_from(code@, i as int))),
            !first ==> preprocess_v(code@) == out@ + nl_join(
                kept_lines(lines_from(code@, i as int)),
            ),
        decreases n - i,
    {
        // find the end of the line
        let mut j = i;
        while j < n && code.get_char(j) != '\n'
            invariant
                i <= j <= n,
                n == code@.len(),
                forall|k: int| i <= k < j ==> code@[k] != '\n',
            decreases n - j,
        {
            j = j + 1;
        }
        proof {
            lemma_next_nl_char(code@, i as int, j as int);
        }
        let jr = if j < n && j > i && code.get_char(j - 1) == '\r' {
            j - 1
        } else {
            j
        };
        let line = code.substring_char(i, jr);
        let m = line.unicode_len();
        let ghost ls = lines_from(code@, i as int);
        let ghost rest = kept_lines(ls.skip(1));
        proof {
            assert(ls[0] == line@);
            if j < n {
                assert(ls.skip(1) =~= lines_from(code@, j + 1));
            } else {
                assert(ls =~= seq![line@]);
                assert(ls.skip(1) =~= Seq::<Seq<char>>::empty());
                assert(lines_from(code@, n as int) =~= Seq::<Seq<char>>::empty());
            }
        }
        let is_comment = m >= 2 && {
            let a = line.get_char(0);
            let b = line.get_char(1);
            a == '/' && b == '/'
        };
        if !is_comment {
            // cut a trailing comment off
            let mut k: usize = 0;
            let mut found = false;
            while m >= 2 && k < m - 1 && !found
                invariant
                    k <= m,
                    m == line@.len(),
                    forall|t: int| 0 <= t < k ==> !((#[trigger] line@[t]) == '/' && line@[t + 1] == '/'),
                    found ==> k + 1 < m && line@[k as int] == '/' && line@[k + 1] == '/',
                decreases m - k + (if found { 0int } else { 1int }),
            {
                if line.get_char(k) == '/' && line.get_char(k + 1) == '/' {
                    found = true;
                } else {
                    k = k + 1;
                }
            }
            let ghost part_v: Seq<char>;
            let part: &str;
            if found {
                proof {
                    lemma_find2_found(line@, k as int);
                }
                part = line.substring_char(0, k);
                proof {
                    part_v = part@;
                    assert(part@ =~= strip_comment(line@));
                }
            } else {
                proof {
                    assert forall|t: int| 0 <= t && t + 1 < m implies !((#[trigger] line@[t]) == '/' && line@[t
                        + 1] == '/') by {}
                    lemma_find2_none(line@);
                }
                part = line;
                proof {
                    part_v = part@;
                    assert(part@ == strip_comment(line@));
                }
            }
            let ghost kl = kept_lines(ls);
            proof {
                assert(kl =~= seq![part_v] + rest);
                assert(kl[0] == part_v);
                assert(kl.skip(1) =~= rest);
            }
            if first {
                out.append(part);
                first = false;
                proof {
                    // the first kept line opens the output without a newline
                    if rest.len() == 0 {
                        assert(join_nl(kl) == part_v);
                        assert(nl_join(rest) =~= Seq::<char>::empty());
                        assert(part_v + nl_join(rest) =~= part_v);
                    } else {
                        assert(join_nl(kl) == part_v + seq!['\n'] + join_nl(rest));
                        assert(part_v + nl_join(rest) =~= part_v + seq!['\n'] + join_nl(rest));
                    }
                    assert(Seq::<char>::empty() + part_v =~= part_v);
                }
            } else {
                out.append("\n");
                out.append(part);
                proof {
                    reveal_strlit("\n");
                    assert("\n"@ =~= seq!['\n']);
                    if rest.len() == 0 {
                        assert(join_nl(kl) == part_v);
                        assert(nl_join(kl) =~= seq!['\n'] + part_v + nl_join(rest));
                    } else {
                        assert(join_nl(kl) == part_v + seq!['\n'] + join_nl(rest));
                        assert(nl_join(kl) =~= seq!['\n'] + part_v + nl_join(rest));
                    }
                }
            }
        } else {
            proof {
                assert(starts_comment(line@));
                assert(kept_lines(ls) == rest);
            }
        }
        if j < n {
            i = j + 1;
        } else {
            i = n;
        }
    }
    proof {
        assert(lines_from(code@, i as int) =~= Seq::<Seq<char>>::empty());
        assert(kept_lines(Seq::<Seq<char>>::empty()) == Seq::<Seq<char>>::empty());
        if first {
        } else {
            assert(out@ + nl_join(Seq::<Seq<char>>::empty()) =~= out@);
        }
    }
    out
}


// ---------------------------------------------------------------------------
// Parsing: the mathematical model
// ---------------------------------------------------------------------------

/// Debug-style text of a declared type, used in diagnostics.
pub open spec fn type_debug_v(t: Type) -> Seq<char> {
    match t {
        Type::Int => "Int"@,
        Type::Long => "Long"@,
        Type::Float => "Float"@,
        Type::Double => "Double"@,
        Type::Bool => "Bool"@,
        Type::Str => "Str"@,
        Type::NoType => "NoType"@,
    }
}

/// Debug-style text of a boolean literal, used in diagnostics.
pub open spec fn bool_debug_v(b: Bool) -> Seq<char> {
    match b {
        Bool::True => "True"@,
        Bool::False => "False"@,
    }
}

/// Debug-style text of a token, used in the parser's unexpected-token
/// diagnostic.
pub open spec fn token_debug_v(t: TokenV) -> Seq<char> {
    match t {
        TokenV::Let => "Let"@,
        TokenV::If => "If"@,
        TokenV::True => "True"@,
        TokenV::False => "False"@,
        TokenV::Plus => "Plus"@,
        TokenV::Minus => "Minus"@,
        TokenV::Multiply => "Multiply"@,
        TokenV::Divide => "Divide"@,
        TokenV::Equals => "Equals"@,
        TokenV::Type(ty) => "Type("@ + type_debug_v(ty) + ")"@,
        TokenV::LeftParen => "LeftParen"@,
        TokenV::RightParen => "RightParen"@,
        TokenV::LeftBrace => "LeftBrace"@,
        TokenV::RightBrace => "RightBrace"@,
        TokenV::Comma => "Comma"@,
        TokenV::Identifier(s) => "Identifier(\""@ + s + "\")"@,
        TokenV::Number(n) => "Number("@ + dec_i64(n as int) + ")"@,
        TokenV::StringLiteral(s) => "StringLiteral(\""@ + s + "\")"@,
        TokenV::Bool(b) => "Bool("@ + bool_debug_v(b) + ")"@,
    }
}

/// What `parse_primary` returns on token `p`: a literal, a parenthesized
/// expression, a block, an identifier or call, or the unexpected-token error.
pub open spec fn parse_primary_v(t: Seq<TokenV>, p: int) -> Result<(ExprV, int), ErrV>
    decreases t.len() - p, 1int,
{
    if p < 0 || p >= t.len() {
        Err(ErrV::SyntaxError("Unexpected end of input"@))
    } else {
        match t[p] {
            TokenV::Number(n) => Ok((ExprV::Number(n), p + 1)),
            TokenV::Bool(v) => Ok((ExprV::Bool(v), p + 1)),
            TokenV::True => Ok((ExprV::Bool(Bool::True), p + 1)),
            TokenV::False => Ok((ExprV::Bool(Bool::False), p + 1)),
            TokenV::StringLiteral(s) => Ok((ExprV::StringLiteral(s), p + 1)),
            TokenV::LeftParen => match parse_expr_v(t, p + 1) {
                Ok((e, p2)) => if 0 <= p2 < t.len() && t[p2] is RightParen {
                    Ok((e, p2 + 1))
                } else {
                    Err(ErrV::SyntaxError("Expected ')'"@))
                },
                Err(e) => Err(e),
            },
            TokenV::LeftBrace => match parse_block_v(t, p + 1) {
                Ok((es, p2)) => Ok((ExprV::Block(es), p2)),
                Err(e) => Err(e),
            },
            TokenV::Identifier(name) => if p + 1 < t.len() && t[p + 1] is LeftParen {
                parse_func_call_v(t, p + 1, name)
            } else {
                Ok((ExprV::Identifier(name), p + 1))
            },
            _ => Err(ErrV::SyntaxError("Unexpected token: "@ + token_debug_v(t[p]))),
        }
    }
}

/// What parsing a block body returns: the expressions up to the closing
/// brace, which is consumed; running out of tokens before it is an error.
pub open spec fn parse_block_v(t: Seq<TokenV>, p: int) -> Result<(Seq<ExprV>, int), ErrV>
    decreases t.len() - p, 5int,
{
    if p < 0 || p >= t.len() {
        Err(ErrV::SyntaxError("Unexpected end of input"@))
    } else if t[p] is RightBrace {
        Ok((Seq::empty(), p + 1))
    } else {
        match parse_expr_v(t, p) {
            Ok((e, p2)) => if p < p2 <= t.len() {
                match parse_block_v(t, p2) {
                    Ok((es, p3)) => Ok((seq![e] + es, p3)),
                    Err(er) => Err(er),
                }
            } else {
                // parsing an expression always consumes tokens; not reached
                Err(ErrV::Generic(Seq::empty()))
            },
            Err(er) => Err(er),
        }
    }
}

/// What parsing a call's argument list returns, the opening parenthesis
/// already seen at `p - 1`: commas are skipped, a closing parenthesis ends
/// the list, and running out of tokens is an error.
pub open spec fn parse_args_v(t: Seq<TokenV>, p: int) -> Result<(Seq<ExprV>, int), ErrV>
    decreases t.len() - p, 5int,
{
    if p < 0 || p >= t.len() {
        Err(ErrV::SyntaxError("Unexpected end of input, expected ')'"@))
    } else if t[p] is RightParen {
        Ok((Seq::empty(), p + 1))
    } else if t[p] is Comma {
        parse_args_v(t, p + 1)
    } else {
        match parse_expr_v(t, p) {
            Ok((e, p2)) => if p < p2 <= t.len() {
                match parse_args_v(t, p2) {
                    Ok((es, p3)) => Ok((seq![e] + es, p3)),
                    Err(er) => Err(er),
                }
            } else {
                // parsing an expression always consumes tokens; not reached
                Err(ErrV::Generic(Seq::empty()))
            },
            Err(er) => Err(er),
        }
    }
}

/// What parsing a function call returns, the name already consumed:
/// the opening parenthesis must stand at `p`.
pub open spec fn parse_func_call_v(t: Seq<TokenV>, p: int, name: Seq<char>) -> Result<
    (ExprV, int),
    ErrV,
>
    decreases t.len() - p, 6int,
{
    if p < 0 || p >= t.len() || !(t[p] is LeftParen) {
        Err(ErrV::SyntaxError("Expected '(' after function name"@))
    } else {
        match parse_args_v(t, p + 1) {
            Ok((args, p2)) => Ok((ExprV::FuncCall(FuncCallV { name, arguments: args }), p2)),
            Err(e) => Err(e),
        }
    }
}

/// What parsing a variable declaration returns, `let` standing at `p`:
/// an optional declared type, the identifier, `=`, and a value expression.
pub open spec fn parse_variable_declaration_v(t: Seq<TokenV>, p: int) -> Result<
    (ExprV, int),
    ErrV,
>
    decreases t.len() - p, 2int,
{
    let p1 = p + 1;  // past `let`
    let typ = if 0 <= p1 < t.len() && t[p1] is Type {
        Some(t[p1]->Type_0)
    } else {
        None
    };
    let p2 = if typ is Some {
        p1 + 1
    } else {
        p1
    };
    if p2 < 0 || p2 >= t.len() || !(t[p2] is Identifier) {
        Err(ErrV::SyntaxError("Expected identifier after variable type"@))
    } else {
        let ident = t[p2]->Identifier_0;
        let p3 = p2 + 1;
        if p3 >= t.len() || !(t[p3] is Equals) {
            Err(ErrV::SyntaxError("Expected '=' after variable name"@))
        } else {
            match parse_expr_v(t, p3 + 1) {
                Ok((v, p4)) => Ok(
                    (
                        ExprV::VariableDeclaration(
                            Box::new(DeclV { identifier: ident, typ, value: v }),
                        ),
                        p4,
                    ),
                ),
                Err(e) => Err(e),
            }
        }
    }
}

/// The operator a token stands for, if it is one of the four.
pub open spec fn binop_of_token(t: TokenV) -> Option<BinOpKind> {
    match t {
        TokenV::Plus => Some(BinOpKind::Plus),
        TokenV::Minus => Some(BinOpKind::Minus),
        TokenV::Multiply => Some(BinOpKind::Multiply),
        TokenV::Divide => Some(BinOpKind::Divide),
        _ => None,
    }
}

/// The left-associative operator loop: while an operator follows, another
/// primary is folded into the left operand. All four operators share one
/// precedence level, so `1+2*3` groups as `(1+2)*3`.
pub open spec fn parse_bin_loop_v(t: Seq<TokenV>, p: int, left: ExprV) -> Result<
    (ExprV, int),
    ErrV,
>
    decreases t.len() - p, 2int,
{
    if p < 0 || p >= t.len() || binop_of_token(t[p]) is None {
        Ok((left, p))
    } else {
        let kind = binop_of_token(t[p])->Some_0;
        match parse_primary_v(t, p + 1) {
            Ok((right, p2)) => if p < p2 <= t.len() {
                parse_bin_loop_v(
                    t,
                    p2,
                    ExprV::BinExpr(Box::new(BinExprV { lhs: left, rhs: right, kind })),
                )
            } else {
                // parsing a primary always consumes tokens; not reached
                Err(ErrV::Generic(Seq::empty()))
            },
            Err(e) => Err(e),
        }
    }
}

/// What parsing a binary expression returns: a primary followed by the
/// operator loop.
pub open spec fn parse_binary_v(t: Seq<TokenV>, p: int) -> Result<(ExprV, int), ErrV>
    decreases t.len() - p, 3int,
{
    match parse_primary_v(t, p) {
        Ok((left, p2)) => if p < p2 <= t.len() {
            parse_bin_loop_v(t, p2, left)
        } else {
            // parsing a primary always consumes tokens; not reached
            Err(ErrV::Generic(Seq::empty()))
        },
        Err(e) => Err(e),
    }
}

/// What parsing one expression returns: a variable declaration after `let`,
/// a binary expression otherwise.
pub open spec fn parse_expr_v(t: Seq<TokenV>, p: int) -> Result<(ExprV, int), ErrV>
    decreases t.len() - p, 4int,
{
    if p < 0 || p >= t.len() {
        Err(ErrV::SyntaxError("Unexpected end of input"@))
    } else if t[p] is Let {
        parse_variable_declaration_v(t, p)
    } else {
        parse_binary_v(t, p)
    }
}

/// What parsing a whole program returns: the expressions until the tokens
/// run out, or the first parse error. There is no error recovery.
pub open spec fn parse_program_v(t: Seq<TokenV>, p: int) -> Result<Seq<ExprV>, ErrV>
    decreases t.len() - p, 7int,
{
    if p < 0 || p >= t.len() {
        Ok(Seq::empty())
    } else {
        match parse_expr_v(t, p) {
            Ok((e, p2)) => if p < p2 <= t.len() {
                match parse_program_v(t, p2) {
                    Ok(es) => Ok(seq![e] + es),
                    Err(er) => Err(er),
                }
            } else {
                // parsing an expression always consumes tokens; not reached
                Err(ErrV::Generic(Seq::empty()))
            },
            Err(er) => Err(er),
        }
    }
}


// ---------------------------------------------------------------------------
// Parsing: executable code
// ---------------------------------------------------------------------------

/// Builds the debug-style text of a token for the unexpected-token
/// diagnostic.
fn token_debug(t: &Token) -> (r: String)
    ensures
        r@ == token_debug_v(t@),
{
    match t {
        Token::Let => String::from_str("Let"),
        Token::If => String::from_str("If"),
        Token::True => String::from_str("True"),
        Token::False => String::from_str("False"),
        Token::Plus => String::from_str("Plus"),
        Token::Minus => String::from_str("Minus"),
        Token::Multiply => String::from_str("Multiply"),
        Token::Divide => String::from_str("Divide"),
        Token::Equals => String::from_str("Equals"),
        Token::Type(ty) => {
            let mut m = String::from_str("Type(");
            let name = match ty {
                Type::Int => "Int",
                Type::Long => "Long",
                Type::Float => "Float",
                Type::Double => "Double",
                Type::Bool => "Bool",
                Type::Str => "Str",
                Type::NoType => "NoType",
            };
            m.append(name);
            m.append(")");
            m
        },
        Token::LeftParen => String::from_str("LeftParen"),
        Token::RightParen => String::from_str("RightParen"),
        Token::LeftBrace => String::from_str("LeftBrace"),
        Token::RightBrace => String::from_str("RightBrace"),
        Token::Comma => String::from_str("Comma"),
        Token::Identifier(s) => {
            let mut m = String::from_str("Identifier(\"");
            m.append(s.as_str());
            m.append("\")");
            m
        },
        Token::Number(n) => {
            let mut m = String::from_str("Number(");
            let d = crate::utils::i64_to_string(*n);
            m.append(d.as_str());
            m.append(")");
            m
        },
        Token::StringLiteral(s) => {
            let mut m = String::from_str("StringLiteral(\"");
            m.append(s.as_str());
            m.append("\")");
            m
        },
        Token::Bool(b) => {
            let mut m = String::from_str("Bool(");
            let name = match b {
                Bool::True => "True",
                Bool::False => "False",
            };
            m.append(name);
            m.append(")");
            m
        },
    }
}

/// Type alias for the AST, a list of expressions
pub type Ast = Vec<Expr>;

/// Parses tokens into expressions and builds an AST, consuming one token of
/// lookahead at a time.
pub struct Parser {
    tokens: Vec<Token>,
    pos: usize,
}

impl Parser {
    /// The views of the tokens being parsed.
    pub closed spec fn toks(&self) -> Seq<TokenV> {
        tokens_v(self.tokens@)
    }

    /// The cursor's position.
    pub closed spec fn at(&self) -> int {
        self.pos as int
    }

    /// The cursor never leaves the token list.
    pub closed spec fn wf(&self) -> bool {
        self.pos <= self.tokens@.len()
    }

    /// Creates a new parser instance from a list of tokens
    pub fn new(tokens: Vec<Token>) -> (r: Parser)
        ensures
            r.toks() == tokens_v(tokens@),
            r.at() == 0,
            r.wf(),
    {
        Parser { tokens, pos: 0 }
    }

    /// Parses primary expressions (numbers, identifiers, etc.)
    pub fn parse_primary(&mut self) -> (r: Result<Expr, ErrorType>)
        requires
            old(self).wf(),
        ensures
            final(self).wf(),
            final(self).toks() == old(self).toks(),
            match (r, parse_primary_v(old(self).toks(), old(self).at())) {
                (Ok(e), Ok((ev, p2))) => expr_v(e) == ev && final(self).at() == p2 && old(
                    self,
                ).at() < p2 <= old(self).toks().len(),
                (Err(er), Err(ev)) => er@ == ev,
                _ => false,
            },
        decreases self.toks().len() - self.at(), 1int,
    {
        let ghost t = self.toks();
        let ghost p0 = self.at();
        if self.pos >= self.tokens.len() {
            return Err(ErrorType::SyntaxError(String::from_str("Unexpected end of input")));
        }
        proof {
            assert(t[p0] == self.tokens@[p0]@);
        }
        match &self.tokens[self.pos] {
            Token::Number(n) => {
                let v = *n;
                self.pos = self.pos + 1;
                Ok(Expr::Number(v))
            },
            Token::Bool(v) => {
                let e = match v {
                    Bool::True => Expr::Bool(Bool::True),
                    Bool::False => Expr::Bool(Bool::False),
                };
                self.pos = self.pos + 1;
                Ok(e)
            },
            Token::True => {
                self.pos = self.pos + 1;
                Ok(Expr::Bool(Bool::True))
            },
            Token::False => {
                self.pos = self.pos + 1;
                Ok(Expr::Bool(Bool::False))
            },
            Token::StringLiteral(s) => {
                let text = s.clone();
                self.pos = self.pos + 1;
                Ok(Expr::StringLiteral(text))
            },
            Token::LeftParen => {
                self.pos = self.pos + 1;
                match self.parse_expr() {
                    Ok(e) => {
                        if self.pos < self.tokens.len() {
                            proof {
                                assert(t[self.at()] == self.tokens@[self.at()]@);
                            }
                            match &self.tokens[self.pos] {
                                Token::RightParen => {
                                    self.pos = self.pos + 1;
                                    Ok(e)
                                },
                                _ => Err(
                                    ErrorType::SyntaxError(String::from_str("Expected ')'")),
                                ),
                            }
                        } else {
                            Err(ErrorType::SyntaxError(String::from_str("Expected ')'")))
                        }
                    },
                    Err(e) => Err(e),
                }
            },
            Token::LeftBrace => {
                self.pos = self.pos + 1;
                self.parse_block()
            },
            Token::Identifier(name) => {
                let nm = name.clone();
                self.pos = self.pos + 1;
                let mut is_call = false;
                if self.pos < self.tokens.len() {
                    proof {
                        assert(t[self.at()] == self.tokens@[self.at()]@);
                    }
                    match &self.tokens[self.pos] {
                        Token::LeftParen => {
                            is_call = true;
                        },
                        _ => {},
                    }
                }
                if is_call {
                    self.parse_func_call(nm)
                } else {
                    Ok(Expr::Identifier(nm))
                }
            },
            tok => {
                let mut m = String::from_str("Unexpected token: ");
                let d = token_debug(tok);
                m.append(d.as_str());
                Err(ErrorType::SyntaxError(m))
            },
        }
    }

    /// Parses a code block: `{ expr1 expr2 ... }`; the closing brace is
    /// required, and running out of tokens before it is an error.
    #[verifier::loop_isolation(false)]
    pub fn parse_block(&mut self) -> (r: Result<Expr, ErrorType>)
        requires
            old(self).wf(),
        ensures
            final(self).wf(),
            final(self).toks() == old(self).toks(),
            match (r, parse_block_v(old(self).toks(), old(self).at())) {
                (Ok(e), Ok((es, p2))) => expr_v(e) == ExprV::Block(es) && final(self).at() == p2
                    && old(self).at() <= p2 <= old(self).toks().len(),
                (Err(er), Err(ev)) => er@ == ev,
                _ => false,
            },
        decreases self.toks().len() - self.at(), 5int,
    {
        let ghost t = self.toks();
        let ghost p0 = self.at();
        let mut exprs: Vec<Expr> = Vec::new();
        let mut closed_brace = false;
        proof {
            assert(exprs_v(exprs@) =~= Seq::<ExprV>::empty());
        }
        while !closed_brace && self.pos < self.tokens.len()
            invariant
                self.wf(),
                self.toks() == t,
                p0 <= self.at() <= t.len(),
                !closed_brace ==> match parse_block_v(t, self.at()) {
                    Ok((es, p2)) => parse_block_v(t, p0) == Ok::<(Seq<ExprV>, int), ErrV>(
                        (exprs_v(exprs@) + es, p2),
                    ),
                    Err(er) => parse_block_v(t, p0) == Err::<(Seq<ExprV>, int), ErrV>(er),
                },
                closed_brace ==> parse_block_v(t, p0) == Ok::<(Seq<ExprV>, int), ErrV>(
                    (exprs_v(exprs@), self.at()),
                ),
            decreases t.len() - self.at(), 8int + (if closed_brace { 0int } else { 1int }),
        {
            proof {
                assert(t[self.at()] == self.tokens@[self.at()]@);
            }
            let is_close = match &self.tokens[self.pos] {
                Token::RightBrace => true,
                _ => false,
            };
            if is_close {
                self.pos = self.pos + 1;
                closed_brace = true;
            } else {
                let ghost pa = self.at();
                match self.parse_expr() {
                    Ok(e) => {
                        let ghost pre = exprs@;
                        exprs.push(e);
                        proof {
                            assert(exprs_v(exprs@) =~= exprs_v(pre) + seq![expr_v(e)]);
                            match parse_block_v(t, self.at()) {
                                Ok((es, p2)) => {
                                    assert(exprs_v(pre) + (seq![expr_v(e)] + es) =~= (exprs_v(pre)
                                        + seq![expr_v(e)]) + es);
                                },
                                Err(_) => {},
                            }
                        }
                    },
                    Err(er) => {
                        return Err(er);
                    },
                }
            }
        }
        if !closed_brace {
            // the tokens ran out before a closing brace
            return Err(ErrorType::SyntaxError(String::from_str("Unexpected end of input")));
        }
        let ghost evs = exprs_v(exprs@);
        let result = Expr::Block(exprs);
        proof {
            assert(expr_v(result)->Block_0 =~= evs);
            assert(expr_v(result) == ExprV::Block(evs));
        }
        Ok(result)
    }

    /// Parses a function call's argument list, the name already consumed.
    #[verifier::loop_isolation(false)]
    fn parse_func_call(&mut self, name: String) -> (r: Result<Expr, ErrorType>)
        requires
            old(self).wf(),
        ensures
            final(self).wf(),
            final(self).toks() == old(self).toks(),
            match (r, parse_func_call_v(old(self).toks(), old(self).at(), name@)) {
                (Ok(e), Ok((ev, p2))) => expr_v(e) == ev && final(self).at() == p2 && old(
                    self,
                ).at() < p2 <= old(self).toks().len(),
                (Err(er), Err(ev)) => er@ == ev,
                _ => false,
            },
        decreases self.toks().len() - self.at(), 6int,
    {
        let ghost t = self.toks();
        let ghost p0 = self.at();
        let mut has_paren = false;
        if self.pos < self.tokens.len() {
            proof {
                assert(t[self.at()] == self.tokens@[self.at()]@);
            }
            match &self.tokens[self.pos] {
                Token::LeftParen => {
                    has_paren = true;
                },
                _ => {},
            }
        }
        if !has_paren {
            return Err(
                ErrorType::SyntaxError(String::from_str("Expected '(' after function name")),
            );
        }
        self.pos = self.pos + 1;
        let mut args: Vec<Expr> = Vec::new();
        proof {
            assert(exprs_v(args@) =~= Seq::<ExprV>::empty());
            match parse_args_v(t, self.at()) {
                Ok((es, p2)) => {
                    assert(exprs_v(args@) + es =~= es);
                },
                Err(_) => {},
            }
        }
        loop
            invariant
                self.wf(),
                self.toks() == t,
                p0 < self.at() <= t.len(),
                match parse_args_v(t, self.at()) {
                    Ok((es, p2)) => parse_args_v(t, p0 + 1) == Ok::<(Seq<ExprV>, int), ErrV>(
                        (exprs_v(args@) + es, p2),
                    ),
                    Err(er) => parse_args_v(t, p0 + 1) == Err::<(Seq<ExprV>, int), ErrV>(er),
                },
            decreases t.len() - self.at(), 8int,
        {
            if self.pos >= self.tokens.len() {
                return Err(
                    ErrorType::SyntaxError(
                        String::from_str("Unexpected end of input, expected ')'"),
                    ),
                );
            }
            proof {
                assert(t[self.at()] == self.tokens@[self.at()]@);
            }
            let next: usize = match &self.tokens[self.pos] {
                Token::RightParen => 0,
                Token::Comma => 1,
                _ => 2,
            };
            if next == 0 {
                self.pos = self.pos + 1;
                proof {
                    assert(exprs_v(args@) + Seq::<ExprV>::empty() =~= exprs_v(args@));
                }
                let ghost avs = exprs_v(args@);
                let ghost nv = name@;
                let result = Expr::FuncCall(FuncCall { name, arguments: args });
                proof {
                    assert(expr_v(result)->FuncCall_0.arguments =~= avs);
                    assert(expr_v(result) == ExprV::FuncCall(
                        FuncCallV { name: nv, arguments: avs },
                    ));
                }
                return Ok(result);
            } else if next == 1 {
                self.pos = self.pos + 1;
            } else {
                match self.parse_expr() {
                    Ok(e) => {
                        let ghost pre = args@;
                        args.push(e);
                        proof {
                            assert(exprs_v(args@) =~= exprs_v(pre) + seq![expr_v(e)]);
                            match parse_args_v(t, self.at()) {
                                Ok((es, p2)) => {
                                    assert(exprs_v(pre) + (seq![expr_v(e)] + es) =~= (exprs_v(
                                        pre,
                                    ) + seq![expr_v(e)]) + es);
                                },
                                Err(_) => {},
                            }
                        }
                    },
                    Err(er) => {
                        return Err(er);
                    },
                }
            }
        }
    }

    /// Parses variable declarations
    pub fn parse_variable_declaration(&mut self) -> (r: Result<Expr, ErrorType>)
        requires
            old(self).wf(),
        ensures
            final(self).wf(),
            final(self).toks() == old(self).toks(),
            match (r, parse_variable_declaration_v(old(self).toks(), old(self).at())) {
                (Ok(e), Ok((ev, p2))) => expr_v(e) == ev && final(self).at() == p2 && old(
                    self,
                ).at() < p2 <= old(self).toks().len(),
                (Err(er), Err(ev)) => er@ == ev,
                _ => false,
            },
        decreases self.toks().len() - self.at(), 2int,
    {
        let ghost t = self.toks();
        let ghost p0 = self.at();
        // consume `let`
        if self.pos < self.tokens.len() {
            self.pos = self.pos + 1;
        }
        // an optional declared type
        let mut typ: Option<Type> = None;
        if self.pos < self.tokens.len() {
            proof {
                assert(t[self.at()] == self.tokens@[self.at()]@);
            }
            match &self.tokens[self.pos] {
                Token::Type(ty) => {
                    typ = Some(*ty);
                    self.pos = self.pos + 1;
                },
                _ => {},
            }
        }
        // the identifier
        if self.pos >= self.tokens.len() {
            return Err(
                ErrorType::SyntaxError(String::from_str("Expected identifier after variable type")),
            );
        }
        proof {
            assert(t[self.at()] == self.tokens@[self.at()]@);
        }
        let ident: String = match &self.tokens[self.pos] {
            Token::Identifier(id) => id.clone(),
            _ => {
                return Err(
                    ErrorType::SyntaxError(
                        String::from_str("Expected identifier after variable type"),
                    ),
                );
            },
        };
        self.pos = self.pos + 1;
        // `=`
        let mut has_equals = false;
        if self.pos < self.tokens.len() {
            proof {
                assert(t[self.at()] == self.tokens@[self.at()]@);
            }
            match &self.tokens[self.pos] {
                Token::Equals => {
                    has_equals = true;
                },
                _ => {},
            }
        }
        if !has_equals {
            return Err(
                ErrorType::SyntaxError(String::from_str("Expected '=' after variable name")),
            );
        }
        self.pos = self.pos + 1;
        // the value expression
        match self.parse_expr() {
            Ok(v) => Ok(
                Expr::VariableDeclaration(
                    Box::new(VariableDeclaration { identifier: ident, typ, value: v }),
                ),
            ),
            Err(e) => Err(e),
        }
    }

    /// Parses binary expressions: a primary followed by any number of
    /// operator-primary pairs, folded left to right at a single precedence
    /// level.
    #[verifier::loop_isolation(false)]
    pub fn parse_binary(&mut self) -> (r: Result<Expr, ErrorType>)
        requires
            old(self).wf(),
        ensures
            final(self).wf(),
            final(self).toks() == old(self).toks(),
            match (r, parse_binary_v(old(self).toks(), old(self).at())) {
                (Ok(e), Ok((ev, p2))) => expr_v(e) == ev && final(self).at() == p2 && old(
                    self,
                ).at() < p2 <= old(self).toks().len(),
                (Err(er), Err(ev)) => er@ == ev,
                _ => false,
            },
        decreases self.toks().len() - self.at(), 3int,
    {
        let ghost t = self.toks();
        let ghost p0 = self.at();
        let mut left = match self.parse_primary() {
            Ok(e) => e,
            Err(e) => {
                return Err(e);
            },
        };
        let mut done = false;
        while !done && self.pos < self.tokens.len()
            invariant
                self.wf(),
                self.toks() == t,
                p0 < self.at() <= t.len(),
                !done ==> parse_binary_v(t, p0) == parse_bin_loop_v(t, self.at(), expr_v(left)),
                done ==> parse_binary_v(t, p0) == Ok::<(ExprV, int), ErrV>(
                    (expr_v(left), self.at()),
                ),
            decreases t.len() - self.at(), 8int + (if done { 0int } else { 1int }),
        {
            proof {
                assert(t[self.at()] == self.tokens@[self.at()]@);
            }
            let kind = match &self.tokens[self.pos] {
                Token::Plus => Some(BinOpKind::Plus),
                Token::Minus => Some(BinOpKind::Minus),
                Token::Multiply => Some(BinOpKind::Multiply),
                Token::Divide => Some(BinOpKind::Divide),
                _ => None,
            };
            match kind {
                None => {
                    done = true;
                },
                Some(k) => {
                    self.pos = self.pos + 1;
                    match self.parse_primary() {
                        Ok(right) => {
                            left = Expr::BinExpr(
                                Box::new(BinExpr { lhs: left, rhs: right, kind: k }),
                            );
                        },
                        Err(e) => {
                            return Err(e);
                        },
                    }
                },
            }
        }
        Ok(left)
    }

    /// Parses general expressions
    pub fn parse_expr(&mut self) -> (r: Result<Expr, ErrorType>)
        requires
            old(self).wf(),
        ensures
            final(self).wf(),
            final(self).toks() == old(self).toks(),
            match (r, parse_expr_v(old(self).toks(), old(self).at())) {
                (Ok(e), Ok((ev, p2))) => expr_v(e) == ev && final(self).at() == p2 && old(
                    self,
                ).at() < p2 <= old(self).toks().len(),
                (Err(er), Err(ev)) => er@ == ev,
                _ => false,
            },
        decreases self.toks().len() - self.at(), 4int,
    {
        let ghost t = self.toks();
        if self.pos >= self.tokens.len() {
            return Err(ErrorType::SyntaxError(String::from_str("Unexpected end of input")));
        }
        proof {
            assert(t[self.at()] == self.tokens@[self.at()]@);
        }
        let is_let = match &self.tokens[self.pos] {
            Token::Let => true,
            _ => false,
        };
        if is_let {
            self.parse_variable_declaration()
        } else {
            self.parse_binary()
        }
    }

    /// Parses a complete program into an AST
    #[verifier::loop_isolation(false)]
    pub fn parse(&mut self) -> (r: Result<Ast, ErrorType>)
        requires
            old(self).wf(),
        ensures
            final(self).wf(),
            final(self).toks() == old(self).toks(),
            match (r, parse_program_v(old(self).toks(), old(self).at())) {
                (Ok(ast), Ok(es)) => exprs_v(ast@) == es,
                (Err(er), Err(ev)) => er@ == ev,
                _ => false,
            },
        decreases self.toks().len() - self.at(), 7int,
    {
        let ghost t = self.toks();
        let ghost p0 = self.at();
        let mut ast: Vec<Expr> = Vec::new();
        proof {
            assert(exprs_v(ast@) =~= Seq::<ExprV>::empty());
        }
        while self.pos < self.tokens.len()
            invariant
                self.wf(),
                self.toks() == t,
                p0 <= self.at() <= t.len(),
                match parse_program_v(t, self.at()) {
                    Ok(es) => parse_program_v(t, p0) == Ok::<Seq<ExprV>, ErrV>(
                        exprs_v(ast@) + es,
                    ),
                    Err(er) => parse_program_v(t, p0) == Err::<Seq<ExprV>, ErrV>(er),
                },
            decreases t.len() - self.at(), 8int,
        {
            match self.parse_expr() {
                Ok(e) => {
                    let ghost pre = ast@;
                    ast.push(e);
                    proof {
                        assert(exprs_v(ast@) =~= exprs_v(pre) + seq![expr_v(e)]);
                        match parse_program_v(t, self.at()) {
                            Ok(es) => {
                                assert(exprs_v(pre) + (seq![expr_v(e)] + es) =~= (exprs_v(pre)
                                    + seq![expr_v(e)]) + es);
                            },
                            Err(_) => {},
                        }
                    }
                },
                Err(e) => {
                    return Err(e);
                },
            }
        }
        proof {
            assert(exprs_v(ast@) + Seq::<ExprV>::empty() =~= exprs_v(ast@));
        }
        Ok(ast)
    }
}


// ---------------------------------------------------------------------------
// Debug text of expressions, for diagnostics
// ---------------------------------------------------------------------------

/// Debug-style text of a binary operator.
pub open spec fn binop_debug_v(k: BinOpKind) -> Seq<char> {
    match k {
        BinOpKind::Plus => "Plus"@,
        BinOpKind::Minus => "Minus"@,
        BinOpKind::Multiply => "Multiply"@,
        BinOpKind::Divide => "Divide"@,
    }
}

/// Debug-style text of an optional declared type.
pub open spec fn opt_type_debug_v(t: Option<Type>) -> Seq<char> {
    match t {
        Some(ty) => "Some("@ + type_debug_v(ty) + ")"@,
        None => "None"@,
    }
}

/// Debug-style text of an expression, used in the diagnostics for an
/// expression that is not supported in its context.
pub open spec fn expr_debug_v(e: ExprV) -> Seq<char>
    decreases e, 0int,
{
    match e {
        ExprV::Number(n) => "Number("@ + dec_i64(n as int) + ")"@,
        ExprV::Bool(b) => "Bool("@ + bool_debug_v(b) + ")"@,
        ExprV::Identifier(s) => "Identifier(\""@ + s + "\")"@,
        ExprV::StringLiteral(s) => "StringLiteral(\""@ + s + "\")"@,
        ExprV::FuncCall(fc) => "FuncCall(FuncCall { name: \""@ + fc.name
            + "\", arguments: ["@ + exprs_debug_v(fc.arguments, 0) + "] })"@,
        ExprV::VariableDeclaration(d) => "VariableDeclaration(VariableDeclaration { identifier: \""@
            + d.identifier + "\", typ: "@ + opt_type_debug_v(d.typ) + ", value: "@
            + expr_debug_v(d.value) + " })"@,
        ExprV::BinExpr(b) => "BinExpr(BinExpr { lhs: "@ + expr_debug_v(b.lhs) + ", rhs: "@
            + expr_debug_v(b.rhs) + ", kind: "@ + binop_debug_v(b.kind) + " })"@,
        ExprV::Block(es) => "Block(["@ + exprs_debug_v(es, 0) + "])"@,
        ExprV::IfStatement(i) => "IfStatement(IfStatement { comparison: "@ + expr_debug_v(
            i.comparison,
        ) + ", block: ["@ + exprs_debug_v(i.block, 0) + "] })"@,
    }
}

/// Debug-style text of a list of expressions from index `i` on, separated
/// by commas.
pub open spec fn exprs_debug_v(es: Seq<ExprV>, i: int) -> Seq<char>
    decreases es, es.len() - i,
{
    if i < 0 || i >= es.len() {
        Seq::empty()
    } else {
        let sep: Seq<char> = if i != es.len() - 1 {
            ", "@
        } else {
            Seq::empty()
        };
        expr_debug_v(es[i]) + sep + exprs_debug_v(es, i + 1)
    }
}

/// Builds the debug-style text of a list of expressions.
#[verifier::loop_isolation(false)]
fn exprs_debug(es: &Vec<Expr>) -> (r: String)
    ensures
        r@ == exprs_debug_v(exprs_v(es@), 0),
    decreases es, 1int,
{
    let ghost esv = exprs_v(es@);
    let mut out = String::new();
    let mut i: usize = 0;
    proof {
        assert(out@ + exprs_debug_v(esv, 0) =~= exprs_debug_v(esv, 0));
    }
    while i < es.len()
        invariant
            i <= es@.len(),
            exprs_debug_v(esv, 0) == out@ + exprs_debug_v(esv, i as int),
        decreases es, es@.len() - i,
    {
        let d = expr_debug(&es[i]);
        out.append(d.as_str());
        if i != es.len() - 1 {
            out.append(", ");
            proof {
                reveal_strlit(", ");
            }
        }
        proof {
            assert(esv[i as int] == expr_v(es@[i as int]));
            let sep: Seq<char> = if i as int != esv.len() - 1 {
                ", "@
            } else {
                Seq::empty()
            };
            assert(out@ + exprs_debug_v(esv, i + 1) =~= exprs_debug_v(esv, 0));
        }
        i = i + 1;
    }
    proof {
        assert(exprs_debug_v(esv, i as int) =~= Seq::<char>::empty());
        assert(out@ =~= exprs_debug_v(esv, 0));
    }
    out
}

/// Builds the debug-style text of an expression for diagnostics.
pub fn expr_debug(e: &Expr) -> (r: String)
    ensures
        r@ == expr_debug_v(expr_v(*e)),
    decreases e, 0int,
{
    match e {
        Expr::Number(n) => {
            let mut m = String::from_str("Number(");
            let d = crate::utils::i64_to_string(*n);
            m.append(d.as_str());
            m.append(")");
            m
        },
        Expr::Bool(b) => {
            let mut m = String::from_str("Bool(");
            let name = match b {
                Bool::True => "True",
                Bool::False => "False",
            };
            m.append(name);
            m.append(")");
            m
        },
        Expr::Identifier(s) => {
            let mut m = String::from_str("Identifier(\"");
            m.append(s.as_str());
            m.append("\")");
            m
        },
        Expr::StringLiteral(s) => {
            let mut m = String::from_str("StringLiteral(\"");
            m.append(s.as_str());
            m.append("\")");
            m
        },
        Expr::FuncCall(fc) => {
            let mut m = String::from_str("FuncCall(FuncCall { name: \"");
            m.append(fc.name.as_str());
            m.append("\", arguments: [");
            let d = exprs_debug(&fc.arguments);
            m.append(d.as_str());
            m.append("] })");
            proof {
                assert(expr_v(*e)->FuncCall_0.arguments =~= exprs_v(fc.arguments@));
            }
            m
        },
        Expr::VariableDeclaration(d) => {
            let mut m = String::from_str("VariableDeclaration(VariableDeclaration { identifier: \"");
            m.append(d.identifier.as_str());
            m.append("\", typ: ");
            match &d.typ {
                Some(ty) => {
                    m.append("Some(");
                    let name = match ty {
                        Type::Int => "Int",
                        Type::Long => "Long",
                        Type::Float => "Float",
                        Type::Double => "Double",
                        Type::Bool => "Bool",
                        Type::Str => "Str",
                        Type::NoType => "NoType",
                    };
                    m.append(name);
                    m.append(")");
                },
                None => {
                    m.append("None");
                },
            }
            m.append(", value: ");
            let v = expr_debug(&d.value);
            m.append(v.as_str());
            m.append(" })");
            m
        },
        Expr::BinExpr(b) => {
            let mut m = String::from_str("BinExpr(BinExpr { lhs: ");
            let l = expr_debug(&b.lhs);
            m.append(l.as_str());
            m.append(", rhs: ");
            let rr = expr_debug(&b.rhs);
            m.append(rr.as_str());
            m.append(", kind: ");
            let name = match b.kind {
                BinOpKind::Plus => "Plus",
                BinOpKind::Minus => "Minus",
                BinOpKind::Multiply => "Multiply",
                BinOpKind::Divide => "Divide",
            };
            m.append(name);
            m.append(" })");
            m
        },
        Expr::Block(es) => {
            let mut m = String::from_str("Block([");
            let d = exprs_debug(es);
            m.append(d.as_str());
            m.append("])");
            proof {
                assert(expr_v(*e)->Block_0 =~= exprs_v(es@));
            }
            m
        },
        Expr::IfStatement(i) => {
            let mut m = String::from_str("IfStatement(IfStatement { comparison: ");
            let c = expr_debug(&i.comparison);
            m.append(c.as_str());
            m.append(", block: [");
            let d = exprs_debug(&i.block);
            m.append(d.as_str());
            m.append("] })");
            proof {
                assert(expr_v(*e)->IfStatement_0.block =~= exprs_v(i.block@));
            }
            m
        },
    }
}

/// The message for a lookup of an identifier that no binding holds.
pub open spec fn msg_var_missing(id: Seq<char>) -> Seq<char> {
    "Variable doesn't exist: `"@ + id + "`"@
}

/// The message for a call of a function that is not the `print` builtin.
pub open spec fn msg_fn_missing(name: Seq<char>) -> Seq<char> {
    "Function `"@ + name + "` is not implemented"@
}

/// The display name of a declared type, as it appears in the
/// type-mismatch message.
pub open spec fn type_name_v(t: Type) -> Seq<char> {
    match t {
        Type::Int => "int"@,
        Type::Long => "long"@,
        Type::Float => "float"@,
        Type::Double => "double"@,
        Type::Bool => "bool"@,
        Type::Str => "str"@,
        Type::NoType => "none"@,
    }
}

/// The message for a declared type that does not match the value.
pub open spec fn msg_type_mismatch(t: Type) -> Seq<char> {
    "Variable type `"@ + type_name_v(t) + "` does not match value type"@
}

/// The message for a top-level expression kind that no handler supports.
pub open spec fn msg_unsupported(e: ExprV) -> Seq<char> {
    "Expression `"@ + expr_debug_v(e) + "` in this context is not yet implemented"@
}

} // verus!
