//! The parser: recursive descent for statements and precedence climbing
//! for expressions. It consumes tokens pulled from a lexer through a
//! two-token window (`current`, `peek`), collects diagnostics instead of
//! aborting, and builds the syntax tree of `crate::ast`.
//!
//! The whole parse is specified by spec functions over the source text and
//! a scan position: `spec_parse_program` says exactly which tree and which
//! diagnostics `parse_program` produces.

use vstd::prelude::*;
use vstd::string::StringExecFns;
use crate::ast::{
    BoolModel, Boolean, ExprModel, ExprStmtModel, ExpressionStatement,
    ExpressionVariants, IdentModel, Identifier, InfixExpression, InfixModel, IntLitModel,
    IntegerLiteral, LetModel, LetStatement, PrefixExpression, PrefixModel, Program, ReturnModel,
    ReturnStatement, StatementVariant, StmtModel, opt_expr_model, stmt_model, stmts_model_from,
    lemma_stmts_model_from, expr_model,
};
use crate::lexer::{scan_token, Lexer, ScanTok, is_digit_char, is_digit};
use crate::token::{kind_name, Token, TokenModel, TokenType};

verus! {

broadcast use vstd::string::group_string_axioms;

/// The seven precedence levels, lowest binding power first. `CALL` is
/// reserved and unused by the present grammar.
#[derive(Clone, Copy, Debug, PartialEq, Eq, Structural)]
pub enum Precedence {
    LOWEST,
    EQUALS,
    LESSGREATER,
    SUM,
    PRODUCT,
    PREFIX,
    CALL,
}

/// The rank of a precedence level in the total order.
pub open spec fn precedence_index(p: Precedence) -> int {
    match p {
        Precedence::LOWEST => 0,
        Precedence::EQUALS => 1,
        Precedence::LESSGREATER => 2,
        Precedence::SUM => 3,
        Precedence::PRODUCT => 4,
        Precedence::PREFIX => 5,
        Precedence::CALL => 6,
    }
}

impl Precedence {
    /// The rank of this level in the total order.
    pub fn index(&self) -> (r: usize)
        ensures
            r == precedence_index(*self),
    {
        match self {
            Precedence::LOWEST => 0,
            Precedence::EQUALS => 1,
            Precedence::LESSGREATER => 2,
            Precedence::SUM => 3,
            Precedence::PRODUCT => 4,
            Precedence::PREFIX => 5,
            Precedence::CALL => 6,
        }
    }
}

/// The binding power of the operator a token kind stands for; token kinds
/// with no infix meaning sit at the lowest level.
pub open spec fn spec_precedence(t: TokenType) -> int {
    match t {
        TokenType::EQ => 1,
        TokenType::NEQ => 1,
        TokenType::LT => 2,
        TokenType::GT => 2,
        TokenType::PLUS => 3,
        TokenType::MINUS => 3,
        TokenType::SLASH => 4,
        TokenType::ASTERISK => 4,
        _ => 0,
    }
}

/// The precedence table: the level of each token kind that can stand as an
/// infix operator; every other kind sits at the lowest level.
pub fn precedences(typ: &TokenType) -> (p: Precedence)
    ensures
        precedence_index(p) == spec_precedence(*typ),
{
    match typ {
        TokenType::EQ => Precedence::EQUALS,
        TokenType::NEQ => Precedence::EQUALS,
        TokenType::LT => Precedence::LESSGREATER,
        TokenType::GT => Precedence::LESSGREATER,
        TokenType::PLUS => Precedence::SUM,
        TokenType::MINUS => Precedence::SUM,
        TokenType::SLASH => Precedence::PRODUCT,
        TokenType::ASTERISK => Precedence::PRODUCT,
        _ => Precedence::LOWEST,
    }
}

/// The token kinds that may start an expression.
pub open spec fn has_prefix_rule(t: TokenType) -> bool {
    t == TokenType::IDENT || t == TokenType::INT || t == TokenType::BANG || t == TokenType::MINUS
        || t == TokenType::TRUE || t == TokenType::FALSE
}

/// The token kinds that may continue an expression as an infix operator.
pub open spec fn has_infix_rule(t: TokenType) -> bool {
    t == TokenType::PLUS || t == TokenType::MINUS || t == TokenType::SLASH || t
        == TokenType::ASTERISK || t == TokenType::EQ || t == TokenType::NEQ || t == TokenType::LT
        || t == TokenType::GT
}

/// The value of a run of decimal digits, most significant first.
pub open spec fn digits_value(s: Seq<char>) -> int
    decreases s.len(),
{
    if s.len() == 0 {
        0
    } else {
        digits_value(s.drop_last()) * 10 + (s.last() as u32 - '0' as u32)
    }
}

/// Whether every character of `s` is a decimal digit.
pub open spec fn all_digits(s: Seq<char>) -> bool {
    forall|i: int| 0 <= i < s.len() ==> is_digit_char(s[i])
}

/// What converting a literal to a 64-bit signed integer yields: its value
/// when the text is a nonempty run of digits whose value fits, and nothing
/// otherwise.
pub open spec fn spec_parse_i64(s: Seq<char>) -> Option<i64> {
    if s.len() > 0 && all_digits(s) && digits_value(s) <= i64::MAX {
        Some(digits_value(s) as i64)
    } else {
        None
    }
}

/// The value of a digit run is never negative.
pub proof fn lemma_digits_value_nonneg(s: Seq<char>)
    requires
        all_digits(s),
    ensures
        digits_value(s) >= 0,
    decreases s.len(),
{
    if s.len() > 0 {
        let t = s.drop_last();
        assert forall|i: int| 0 <= i < t.len() implies is_digit_char(t[i]) by {
            assert(t[i] == s[i]);
        }
        lemma_digits_value_nonneg(t);
        assert(is_digit_char(s.last()));
    }
}

/// Extending a digit run never shrinks its value.
pub proof fn lemma_digits_value_prefix(s: Seq<char>, k: int)
    requires
        all_digits(s),
        0 <= k <= s.len(),
    ensures
        digits_value(s.subrange(0, k)) <= digits_value(s),
    decreases s.len() - k,
{
    if k == s.len() {
        assert(s.subrange(0, k) =~= s);
    } else {
        lemma_digits_value_prefix(s, k + 1);
        let t = s.subrange(0, k + 1);
        let u = s.subrange(0, k);
        assert(t.drop_last() =~= u);
        assert forall|i: int| 0 <= i < u.len() implies is_digit_char(u[i]) by {
            assert(u[i] == s[i]);
        }
        lemma_digits_value_nonneg(u);
        assert(digits_value(t) == digits_value(u) * 10 + (t.last() as u32 - '0' as u32));
        assert(t.last() == s[k]);
        assert(is_digit_char(t.last()));
        assert(digits_value(u) <= digits_value(u) * 10) by (nonlinear_arith)
            requires
                digits_value(u) >= 0,
        ;
        assert(digits_value(u) <= digits_value(t));
    }
}

/// Convert a run of decimal digits to a 64-bit signed integer. Yields the
/// value exactly when the text is nonempty, all digits, and in range;
/// yields nothing on empty text, a non-digit, or overflow — never a
/// default.
pub fn i64_from_digits(s: &str) -> (r: Option<i64>)
    ensures
        r == spec_parse_i64(s@),
{
    let len = s.unicode_len();
    if len == 0 {
        return None;
    }
    let mut value: i64 = 0;
    let mut i: usize = 0;
    while i < len
        invariant
            0 <= i <= len,
            len == s@.len(),
            forall|j: int| 0 <= j < i ==> is_digit_char(s@[j]),
            0 <= value,
            value == digits_value(s@.subrange(0, i as int)),
        decreases len - i,
    {
        let c = s.get_char(i);
        proof {
            assert(s@.subrange(0, i as int + 1).drop_last() =~= s@.subrange(0, i as int));
        }
        if !is_digit(c) {
            assert(!all_digits(s@));
            return None;
        }
        let d = (c as u32 - 48) as i64;
        if value > (i64::MAX - d) / 10 {
            proof {
                assert(value * 10 + d > i64::MAX) by (nonlinear_arith)
                    requires
                        value > (i64::MAX - d) / 10,
                        0 <= d < 10,
                        value >= 0,
                ;
                assert(digits_value(s@.subrange(0, i as int + 1)) > i64::MAX);
                if all_digits(s@) {
                    lemma_digits_value_prefix(s@, i as int + 1);
                }
            }
            return None;
        }
        value = value * 10 + d;
        i = i + 1;
    }
    proof {
        assert(s@.subrange(0, len as int) =~= s@);
    }
    Some(value)
}

/// A parsed expression: the node (when one was produced), the scan
/// position of the last token consumed for it, and the diagnostics it
/// added, in order.
pub ghost struct ExprOut {
    pub expr: Option<ExprModel>,
    pub pos: int,
    pub errs: Seq<Seq<char>>,
}

/// A parsed statement: the node (when one was produced), the scan position
/// of the last token consumed for it, and the diagnostics it added.
pub ghost struct StmtOut {
    pub stmt: Option<StmtModel>,
    pub pos: int,
    pub errs: Seq<Seq<char>>,
}

/// A parsed program: its statements and all diagnostics, in order.
pub ghost struct ProgOut {
    pub stmts: Seq<StmtModel>,
    pub errs: Seq<Seq<char>>,
}

/// The token value of one scan step.
pub open spec fn tok_model(st: ScanTok) -> TokenModel {
    TokenModel { typ: st.typ, literal: st.literal }
}

/// The scan position of the token after the one at `p`, clamped into the
/// text so that scanning always makes progress.
pub open spec fn next_pos(input: Seq<char>, p: int) -> int {
    if 0 <= p && p < input.len() {
        let e = scan_token(input, p).end;
        if e < p + 1 {
            p + 1
        } else if e > input.len() {
            input.len() as int
        } else {
            e
        }
    } else {
        p
    }
}

/// A position clamped into the interval from `lo` to the end of the text.
pub open spec fn clamp_pos(input: Seq<char>, x: int, lo: int) -> int {
    if x < lo {
        lo
    } else if x > input.len() {
        input.len() as int
    } else {
        x
    }
}

/// Within the text, `next_pos` is exactly where the token at `p` ends.
pub proof fn lemma_next_pos(input: Seq<char>, p: int)
    requires
        0 <= p <= input.len(),
    ensures
        next_pos(input, p) == scan_token(input, p).end,
        p < input.len() ==> p + 1 <= next_pos(input, p) <= input.len(),
        p == input.len() ==> next_pos(input, p) == p,
{
    crate::lexer::lemma_scan_token_bounds(input, p);
}

/// The diagnostic recorded when the peek token is not of the expected
/// kind.
pub open spec fn peek_error_msg(expected: TokenType, got: TokenType) -> Seq<char> {
    "Expected next token to be "@ + kind_name(expected) + ", got "@ + kind_name(got) + " instead"@
}

/// The diagnostic recorded when no rule can start an expression at the
/// current token.
pub open spec fn no_prefix_msg(t: TokenType) -> Seq<char> {
    "No prefix parse function for "@ + kind_name(t) + " found"@
}

/// The diagnostic recorded when an integer literal does not convert.
pub open spec fn int_error_msg(lit: Seq<char>) -> Seq<char> {
    "Could not parse "@ + lit + " as integer"@
}

/// Precedence climbing from a parsed left-hand expression whose last token
/// sits at `a`: while the token after it is not a semicolon, binds tighter
/// than `floor`, and has an infix rule, consume it and a right-hand
/// expression at its precedence and fold them into an infix node;
/// otherwise yield the left-hand expression as it stands.
pub open spec fn spec_climb(input: Seq<char>, left: ExprModel, a: int, floor: int) -> ExprOut
    decreases input.len() - a, 0int,
{
    if a < 0 || a > input.len() {
        ExprOut { expr: Some(left), pos: a, errs: Seq::empty() }
    } else {
        let b = next_pos(input, a);
        let pk = scan_token(input, b);
        if pk.typ == TokenType::SEMICOLON || floor >= spec_precedence(pk.typ) || !has_infix_rule(
            pk.typ,
        ) {
            ExprOut { expr: Some(left), pos: a, errs: Seq::empty() }
        } else {
            let c = next_pos(input, b);
            let r = spec_parse_expression(input, c, spec_precedence(pk.typ));
            match r.expr {
                Some(right) => {
                    let node = ExprModel::Infix(
                        InfixModel {
                            token: tok_model(pk),
                            left: Box::new(left),
                            operator: pk.literal,
                            right: Box::new(right),
                        },
                    );
                    let res = spec_climb(input, node, clamp_pos(input, r.pos, b + 1), floor);
                    ExprOut { expr: res.expr, pos: res.pos, errs: r.errs + res.errs }
                },
                None => ExprOut { expr: None, pos: r.pos, errs: r.errs },
            }
        }
    }
}

/// One expression parsed with floor `floor`, starting at the token at `a`:
/// a prefix rule produces the initial left-hand expression — an
/// identifier, integer or boolean leaf, or a prefix operator applied to an
/// operand parsed at the prefix level — and climbing extends it. A token
/// with no prefix rule, an integer that does not convert, or a failed
/// operand yields no expression and a diagnostic.
pub open spec fn spec_parse_expression(input: Seq<char>, a: int, floor: int) -> ExprOut
    decreases input.len() - a, 1int,
{
    if a < 0 || a > input.len() {
        ExprOut { expr: None, pos: a, errs: Seq::empty() }
    } else {
        let t = scan_token(input, a);
        if t.typ == TokenType::IDENT {
            let leaf = ExprModel::Ident(IdentModel { token: tok_model(t), value: t.literal });
            spec_climb(input, leaf, a, floor)
        } else if t.typ == TokenType::INT {
            match spec_parse_i64(t.literal) {
                Some(v) => {
                    let leaf = ExprModel::Integer(IntLitModel { token: tok_model(t), value: v });
                    spec_climb(input, leaf, a, floor)
                },
                None => ExprOut { expr: None, pos: a, errs: seq![int_error_msg(t.literal)] },
            }
        } else if t.typ == TokenType::TRUE || t.typ == TokenType::FALSE {
            let leaf = ExprModel::Boolean(
                BoolModel { token: tok_model(t), value: t.typ == TokenType::TRUE },
            );
            spec_climb(input, leaf, a, floor)
        } else if t.typ == TokenType::BANG || t.typ == TokenType::MINUS {
            let b = next_pos(input, a);
            let r = spec_parse_expression(input, b, 5);
            match r.expr {
                Some(operand) => {
                    let node = ExprModel::Prefix(
                        PrefixModel {
                            token: tok_model(t),
                            operator: t.literal,
                            right: Box::new(operand),
                        },
                    );
                    let res = spec_climb(input, node, clamp_pos(input, r.pos, b), floor);
                    ExprOut { expr: res.expr, pos: res.pos, errs: r.errs + res.errs }
                },
                None => ExprOut { expr: None, pos: r.pos, errs: r.errs },
            }
        } else {
            ExprOut { expr: None, pos: a, errs: seq![no_prefix_msg(t.typ)] }
        }
    }
}

/// Where parsing stands after an optional trailing semicolon: consumed
/// when it is the very next token, tolerated as missing otherwise.
pub open spec fn after_opt_semicolon(input: Seq<char>, p: int) -> int {
    let q = next_pos(input, p);
    if scan_token(input, q).typ == TokenType::SEMICOLON {
        q
    } else {
        p
    }
}

/// A `let` statement parsed with its keyword at `a`: the peek token must
/// be an identifier and the one after it `=`, each recorded as a
/// diagnostic and yielding no node otherwise; then the value expression is
/// parsed at the lowest floor and a trailing semicolon is consumed when
/// present.
pub open spec fn spec_parse_let(input: Seq<char>, a: int) -> StmtOut
    decreases input.len() - a, 2int,
{
    if a < 0 || a > input.len() {
        StmtOut { stmt: None, pos: a, errs: Seq::empty() }
    } else {
        let lt = scan_token(input, a);
        let b = next_pos(input, a);
        let ident_tok = scan_token(input, b);
        if ident_tok.typ != TokenType::IDENT {
            StmtOut {
                stmt: None,
                pos: a,
                errs: seq![peek_error_msg(TokenType::IDENT, ident_tok.typ)],
            }
        } else {
            let c = next_pos(input, b);
            let assign_tok = scan_token(input, c);
            if assign_tok.typ != TokenType::ASSIGN {
                StmtOut {
                    stmt: None,
                    pos: b,
                    errs: seq![peek_error_msg(TokenType::ASSIGN, assign_tok.typ)],
                }
            } else {
                let d = next_pos(input, c);
                let r = spec_parse_expression(input, d, 0);
                match r.expr {
                    Some(v) => StmtOut {
                        stmt: Some(
                            StmtModel::Let(
                                LetModel {
                                    token: tok_model(lt),
                                    name: IdentModel {
                                        token: tok_model(ident_tok),
                                        value: ident_tok.literal,
                                    },
                                    value: Some(v),
                                },
                            ),
                        ),
                        pos: after_opt_semicolon(input, r.pos),
                        errs: r.errs,
                    },
                    None => StmtOut { stmt: None, pos: r.pos, errs: r.errs },
                }
            }
        }
    }
}

/// A `return` statement parsed with its keyword at `a`: the value
/// expression is parsed at the lowest floor and a trailing semicolon is
/// consumed when present; a failed value yields no node.
pub open spec fn spec_parse_return(input: Seq<char>, a: int) -> StmtOut
    decreases input.len() - a, 2int,
{
    if a < 0 || a > input.len() {
        StmtOut { stmt: None, pos: a, errs: Seq::empty() }
    } else {
        let rt = scan_token(input, a);
        let b = next_pos(input, a);
        let r = spec_parse_expression(input, b, 0);
        match r.expr {
            Some(v) => StmtOut {
                stmt: Some(StmtModel::Return(ReturnModel { token: tok_model(rt), value: Some(v) })),
                pos: after_opt_semicolon(input, r.pos),
                errs: r.errs,
            },
            None => StmtOut { stmt: None, pos: r.pos, errs: r.errs },
        }
    }
}

/// An expression statement parsed at `a`: the expression is parsed at the
/// lowest floor and a trailing semicolon is consumed when present; a
/// failed expression yields no node.
pub open spec fn spec_parse_expr_statement(input: Seq<char>, a: int) -> StmtOut
    decreases input.len() - a, 2int,
{
    if a < 0 || a > input.len() {
        StmtOut { stmt: None, pos: a, errs: Seq::empty() }
    } else {
        let t = scan_token(input, a);
        let r = spec_parse_expression(input, a, 0);
        match r.expr {
            Some(v) => StmtOut {
                stmt: Some(
                    StmtModel::Expression(
                        ExprStmtModel { token: tok_model(t), expression: Some(v) },
                    ),
                ),
                pos: after_opt_semicolon(input, r.pos),
                errs: r.errs,
            },
            None => StmtOut { stmt: None, pos: r.pos, errs: r.errs },
        }
    }
}

/// One statement parsed at `a`, dispatched on the token there: `let` and
/// `return` statements by their keyword, anything else as an expression
/// statement.
pub open spec fn spec_parse_statement(input: Seq<char>, a: int) -> StmtOut
    decreases input.len() - a, 3int,
{
    if a < 0 || a > input.len() {
        StmtOut { stmt: None, pos: a, errs: Seq::empty() }
    } else {
        let t = scan_token(input, a);
        if t.typ == TokenType::LET {
            spec_parse_let(input, a)
        } else if t.typ == TokenType::RETURN {
            spec_parse_return(input, a)
        } else {
            spec_parse_expr_statement(input, a)
        }
    }
}

/// The whole program parsed from `a`: statements parsed one after another
/// until the end-of-file token, each failed construct dropped while its
/// diagnostics accumulate, and parsing resuming at the next token.
pub open spec fn spec_parse_program(input: Seq<char>, a: int) -> ProgOut
    decreases input.len() - a, 4int,
{
    if a < 0 || a > input.len() {
        ProgOut { stmts: Seq::empty(), errs: Seq::empty() }
    } else if scan_token(input, a).typ == TokenType::EOF {
        ProgOut { stmts: Seq::empty(), errs: Seq::empty() }
    } else {
        let r = spec_parse_statement(input, a);
        let a2 = clamp_pos(input, next_pos(input, clamp_pos(input, r.pos, a)), a + 1);
        let rest = spec_parse_program(input, a2);
        ProgOut {
            stmts: match r.stmt {
                Some(s) => seq![s] + rest.stmts,
                None => rest.stmts,
            },
            errs: r.errs + rest.errs,
        }
    }
}

/// Climbing never moves backwards and stays within the text.
pub proof fn lemma_climb_pos(input: Seq<char>, left: ExprModel, a: int, floor: int)
    requires
        0 <= a <= input.len(),
    ensures
        a <= spec_climb(input, left, a, floor).pos <= input.len(),
    decreases input.len() - a, 0int,
{
    let b = next_pos(input, a);
    let pk = scan_token(input, b);
    lemma_next_pos(input, a);
    crate::lexer::lemma_scan_token_bounds(input, a);
    if !(pk.typ == TokenType::SEMICOLON || floor >= spec_precedence(pk.typ) || !has_infix_rule(
        pk.typ,
    )) {
        crate::lexer::lemma_scan_token_bounds(input, b);
        lemma_next_pos(input, b);
        let c = next_pos(input, b);
        let r = spec_parse_expression(input, c, spec_precedence(pk.typ));
        lemma_parse_expression_pos(input, c, spec_precedence(pk.typ));
        match r.expr {
            Some(right) => {
                let node = ExprModel::Infix(
                    InfixModel {
                        token: tok_model(pk),
                        left: Box::new(left),
                        operator: pk.literal,
                        right: Box::new(right),
                    },
                );
                assert(clamp_pos(input, r.pos, b + 1) == r.pos);
                lemma_climb_pos(input, node, r.pos, floor);
            },
            None => {},
        }
    }
}

/// Parsing an expression never moves backwards and stays within the text.
pub proof fn lemma_parse_expression_pos(input: Seq<char>, a: int, floor: int)
    requires
        0 <= a <= input.len(),
    ensures
        a <= spec_parse_expression(input, a, floor).pos <= input.len(),
    decreases input.len() - a, 1int,
{
    let t = scan_token(input, a);
    crate::lexer::lemma_scan_token_bounds(input, a);
    lemma_next_pos(input, a);
    if t.typ == TokenType::IDENT {
        let leaf = ExprModel::Ident(IdentModel { token: tok_model(t), value: t.literal });
        lemma_climb_pos(input, leaf, a, floor);
    } else if t.typ == TokenType::INT {
        match spec_parse_i64(t.literal) {
            Some(v) => {
                let leaf = ExprModel::Integer(IntLitModel { token: tok_model(t), value: v });
                lemma_climb_pos(input, leaf, a, floor);
            },
            None => {},
        }
    } else if t.typ == TokenType::TRUE || t.typ == TokenType::FALSE {
        let leaf = ExprModel::Boolean(
            BoolModel { token: tok_model(t), value: t.typ == TokenType::TRUE },
        );
        lemma_climb_pos(input, leaf, a, floor);
    } else if t.typ == TokenType::BANG || t.typ == TokenType::MINUS {
        let b = next_pos(input, a);
        let r = spec_parse_expression(input, b, 5);
        lemma_parse_expression_pos(input, b, 5);
        match r.expr {
            Some(operand) => {
                let node = ExprModel::Prefix(
                    PrefixModel {
                        token: tok_model(t),
                        operator: t.literal,
                        right: Box::new(operand),
                    },
                );
                assert(clamp_pos(input, r.pos, b) == r.pos);
                lemma_climb_pos(input, node, r.pos, floor);
            },
            None => {},
        }
    }
}

/// Consuming an optional semicolon never moves backwards and stays within
/// the text.
pub proof fn lemma_after_opt_semicolon(input: Seq<char>, p: int)
    requires
        0 <= p <= input.len(),
    ensures
        p <= after_opt_semicolon(input, p) <= input.len(),
{
    lemma_next_pos(input, p);
}

/// Parsing a statement never moves backwards and stays within the text.
pub proof fn lemma_parse_statement_pos(input: Seq<char>, a: int)
    requires
        0 <= a <= input.len(),
    ensures
        a <= spec_parse_statement(input, a).pos <= input.len(),
{
    let t = scan_token(input, a);
    lemma_next_pos(input, a);
    if t.typ == TokenType::LET {
        let b = next_pos(input, a);
        lemma_next_pos(input, b);
        let c = next_pos(input, b);
        lemma_next_pos(input, c);
        let d = next_pos(input, c);
        let r = spec_parse_expression(input, d, 0);
        lemma_parse_expression_pos(input, d, 0);
        lemma_after_opt_semicolon(input, r.pos);
    } else if t.typ == TokenType::RETURN {
        let b = next_pos(input, a);
        let r = spec_parse_expression(input, b, 0);
        lemma_parse_expression_pos(input, b, 0);
        lemma_after_opt_semicolon(input, r.pos);
    } else {
        let r = spec_parse_expression(input, a, 0);
        lemma_parse_expression_pos(input, a, 0);
        lemma_after_opt_semicolon(input, r.pos);
    }
}

/// Unfolding one climbing step when the peek token continues the
/// expression.
pub proof fn lemma_climb_unfold(input: Seq<char>, left: ExprModel, a: int, floor: int)
    requires
        0 <= a <= input.len(),
        ({
            let b = next_pos(input, a);
            let pk = scan_token(input, b);
            pk.typ != TokenType::SEMICOLON && floor < spec_precedence(pk.typ) && has_infix_rule(
                pk.typ,
            )
        }),
    ensures
        ({
            let b = next_pos(input, a);
            let pk = scan_token(input, b);
            let c = next_pos(input, b);
            let rp = spec_parse_expression(input, c, spec_precedence(pk.typ));
            spec_climb(input, left, a, floor) == (match rp.expr {
                Some(right) => {
                    let node = ExprModel::Infix(
                        InfixModel {
                            token: tok_model(pk),
                            left: Box::new(left),
                            operator: pk.literal,
                            right: Box::new(right),
                        },
                    );
                    let res = spec_climb(input, node, clamp_pos(input, rp.pos, b + 1), floor);
                    ExprOut { expr: res.expr, pos: res.pos, errs: rp.errs + res.errs }
                },
                None => ExprOut { expr: None, pos: rp.pos, errs: rp.errs },
            })
        }),
{
}

/// Unfolding one climbing step when the peek token ends the expression.
pub proof fn lemma_climb_exit(input: Seq<char>, left: ExprModel, a: int, floor: int)
    requires
        0 <= a <= input.len(),
        ({
            let b = next_pos(input, a);
            let pk = scan_token(input, b);
            pk.typ == TokenType::SEMICOLON || floor >= spec_precedence(pk.typ) || !has_infix_rule(
                pk.typ,
            )
        }),
    ensures
        spec_climb(input, left, a, floor) == (ExprOut {
            expr: Some(left),
            pos: a,
            errs: Seq::<Seq<char>>::empty(),
        }),
{
}

/// The views of a sequence of diagnostic strings.
pub open spec fn msgs(v: Seq<String>) -> Seq<Seq<char>> {
    v.map_values(|s: String| s@)
}

/// Appending a diagnostic appends its view.
pub proof fn lemma_msgs_push(v: Seq<String>, s: String)
    ensures
        msgs(v.push(s)) =~= msgs(v).push(s@),
{
}

/// The model of an optional statement node.
pub open spec fn opt_stmt_model(o: Option<StatementVariant>) -> Option<StmtModel> {
    match o {
        Some(s) => Some(stmt_model(s)),
        None => None,
    }
}

/// The parser: the lexer it pulls from, the two-token lookahead window,
/// and the diagnostics gathered so far. The ghost cursor fields tie the
/// window to scan positions in the source text.
pub struct Parser {
    lexer: Lexer,
    current_token: Token,
    peek_token: Token,
    errors: Vec<String>,
    cur_pos: Ghost<int>,
    peek_pos: Ghost<int>,
}

impl Parser {
    /// The source text being parsed.
    pub closed spec fn src(self) -> Seq<char> {
        self.lexer.src()
    }

    /// The scan position of the current token.
    pub closed spec fn cur(self) -> int {
        self.cur_pos@
    }

    /// The diagnostics gathered so far.
    pub closed spec fn errs(self) -> Seq<Seq<char>> {
        msgs(self.errors@)
    }

    /// The two-token window sits on consecutive tokens of the text: the
    /// current token at `cur_pos`, the peek token right after it, and the
    /// lexer right after that.
    pub closed spec fn wf(self) -> bool {
        &&& self.lexer.wf()
        &&& 0 <= self.cur_pos@ <= self.src().len()
        &&& 0 <= self.peek_pos@ <= self.src().len()
        &&& self.current_token@ == tok_model(scan_token(self.src(), self.cur_pos@))
        &&& self.peek_pos@ == scan_token(self.src(), self.cur_pos@).end
        &&& self.peek_token@ == tok_model(scan_token(self.src(), self.peek_pos@))
        &&& self.lexer.pos() == scan_token(self.src(), self.peek_pos@).end
    }

    /// A parser over the given lexer, with the lookahead window filled and
    /// no diagnostics.
    pub fn new(lexer: Lexer) -> (p: Parser)
        requires
            lexer.wf(),
        ensures
            p.wf(),
            p.src() == lexer.src(),
            p.cur() == lexer.pos(),
            p.errs() == Seq::<Seq<char>>::empty(),
    {
        let ghost c0 = lexer.pos();
        proof {
            lexer.lemma_pos_in_range();
        }
        let mut parser = Parser {
            lexer,
            current_token: Token::new(TokenType::ILLEGAL, ' '),
            peek_token: Token::new(TokenType::ILLEGAL, ' '),
            errors: Vec::new(),
            cur_pos: Ghost(c0),
            peek_pos: Ghost(c0),
        };
        proof {
            crate::lexer::lemma_scan_token_bounds(parser.lexer.src(), c0);
        }
        parser.current_token = parser.lexer.next_token();
        proof {
            crate::lexer::lemma_scan_token_bounds(parser.lexer.src(), parser.lexer.pos());
        }
        parser.peek_pos = Ghost(parser.lexer.pos());
        parser.peek_token = parser.lexer.next_token();
        proof {
            assert(parser.errs() =~= Seq::<Seq<char>>::empty());
        }
        parser
    }

    /// Slide the lookahead window one token forward.
    fn next_token(&mut self)
        requires
            old(self).wf(),
        ensures
            final(self).wf(),
            final(self).src() == old(self).src(),
            final(self).errs() == old(self).errs(),
            final(self).cur() == scan_token(old(self).src(), old(self).cur()).end,
    {
        proof {
            crate::lexer::lemma_scan_token_bounds(self.src(), self.peek_pos@);
        }
        self.current_token = self.peek_token.clone();
        self.cur_pos = Ghost(self.peek_pos@);
        self.peek_pos = Ghost(self.lexer.pos());
        self.peek_token = self.lexer.next_token();
    }

    /// Whether the current token has the given kind.
    fn current_token_is(&self, token_type: TokenType) -> (r: bool)
        requires
            self.wf(),
        ensures
            r == (scan_token(self.src(), self.cur()).typ == token_type),
    {
        self.current_token.typ == token_type
    }

    /// Whether the peek token has the given kind.
    fn peek_token_is(&self, token_type: TokenType) -> (r: bool)
        requires
            self.wf(),
        ensures
            r == (scan_token(self.src(), self.peek_pos@).typ == token_type),
    {
        self.peek_token.typ == token_type
    }

    /// Record that the peek token was not of the expected kind.
    fn peek_error(&mut self, token: TokenType)
        requires
            old(self).wf(),
        ensures
            final(self).wf(),
            final(self).src() == old(self).src(),
            final(self).cur() == old(self).cur(),
            final(self).peek_pos@ == old(self).peek_pos@,
            final(self).current_token == old(self).current_token,
            final(self).peek_token == old(self).peek_token,
            final(self).errs() == old(self).errs().push(
                peek_error_msg(token, scan_token(old(self).src(), old(self).peek_pos@).typ),
            ),
    {
        let mut message = String::from_str("Expected next token to be ");
        let en = token.name();
        message.append(en.as_str());
        message.append(", got ");
        let gn = self.peek_token.typ.name();
        message.append(gn.as_str());
        message.append(" instead");
        proof {
            lemma_msgs_push(self.errors@, message);
        }
        self.errors.push(message);
    }

    /// Record that no rule can start an expression at the given token
    /// kind.
    fn no_prefix_parse_fn_error(&mut self, token_type: TokenType)
        requires
            old(self).wf(),
        ensures
            final(self).wf(),
            final(self).src() == old(self).src(),
            final(self).cur() == old(self).cur(),
            final(self).peek_pos@ == old(self).peek_pos@,
            final(self).current_token == old(self).current_token,
            final(self).peek_token == old(self).peek_token,
            final(self).errs() == old(self).errs().push(no_prefix_msg(token_type)),
    {
        let mut message = String::from_str("No prefix parse function for ");
        let tn = token_type.name();
        message.append(tn.as_str());
        message.append(" found");
        proof {
            lemma_msgs_push(self.errors@, message);
        }
        self.errors.push(message);
    }

    /// Advance past the peek token when it has the expected kind; record a
    /// diagnostic and stay put otherwise.
    fn expect_peek(&mut self, token_type: TokenType) -> (r: bool)
        requires
            old(self).wf(),
        ensures
            final(self).wf(),
            final(self).src() == old(self).src(),
            r == (scan_token(old(self).src(), old(self).peek_pos@).typ == token_type),
            r ==> final(self).cur() == old(self).peek_pos@ && final(self).errs() == old(
                self,
            ).errs(),
            !r ==> final(self).cur() == old(self).cur() && final(self).peek_pos@ == old(
                self,
            ).peek_pos@ && final(self).errs() == old(self).errs().push(
                peek_error_msg(token_type, scan_token(old(self).src(), old(self).peek_pos@).typ),
            ),
    {
        if self.peek_token_is(token_type) {
            self.next_token();
            true
        } else {
            self.peek_error(token_type);
            false
        }
    }

    /// The binding power of the peek token.
    fn peek_preference(&self) -> (r: usize)
        requires
            self.wf(),
        ensures
            r == spec_precedence(scan_token(self.src(), self.peek_pos@).typ),
    {
        precedences(&self.peek_token.typ).index()
    }

    /// The binding power of the current token.
    fn current_precedence(&self) -> (r: usize)
        requires
            self.wf(),
        ensures
            r == spec_precedence(scan_token(self.src(), self.cur()).typ),
    {
        precedences(&self.current_token.typ).index()
    }

    /// The diagnostics gathered so far, in the order they were recorded.
    pub fn errors(&self) -> (r: Vec<String>)
        ensures
            msgs(r@) == self.errs(),
    {
        let mut out: Vec<String> = Vec::new();
        let mut i: usize = 0;
        while i < self.errors.len()
            invariant
                i <= self.errors.len(),
                out@.len() == i,
                forall|j: int| 0 <= j < i ==> out@[j]@ == #[trigger] self.errors@[j]@,
            decreases self.errors.len() - i,
        {
            let s = self.errors[i].clone();
            out.push(s);
            i = i + 1;
        }
        proof {
            assert(msgs(out@) =~= self.errs());
        }
        out
    }
}

/// Whether an infix rule is registered for the token kind.
fn infix_rule_for(t: TokenType) -> (r: bool)
    ensures
        r == has_infix_rule(t),
{
    match t {
        TokenType::PLUS => true,
        TokenType::MINUS => true,
        TokenType::SLASH => true,
        TokenType::ASTERISK => true,
        TokenType::EQ => true,
        TokenType::NEQ => true,
        TokenType::LT => true,
        TokenType::GT => true,
        _ => false,
    }
}

impl Parser {
    /// The current token as an identifier leaf.
    fn parse_identifier(&mut self) -> (r: Option<ExpressionVariants>)
        requires
            old(self).wf(),
            scan_token(old(self).src(), old(self).cur()).typ == TokenType::IDENT,
        ensures
            *final(self) == *old(self),
            ({
                let t = scan_token(old(self).src(), old(self).cur());
                opt_expr_model(r) == Some(
                    ExprModel::Ident(IdentModel { token: tok_model(t), value: t.literal }),
                )
            }),
    {
        Some(
            ExpressionVariants::Ident(
                Identifier {
                    token: self.current_token.clone(),
                    value: self.current_token.literal.clone(),
                },
            ),
        )
    }

    /// The current token as a boolean leaf.
    fn parse_boolean(&mut self) -> (r: Option<ExpressionVariants>)
        requires
            old(self).wf(),
            scan_token(old(self).src(), old(self).cur()).typ == TokenType::TRUE || scan_token(
                old(self).src(),
                old(self).cur(),
            ).typ == TokenType::FALSE,
        ensures
            *final(self) == *old(self),
            ({
                let t = scan_token(old(self).src(), old(self).cur());
                opt_expr_model(r) == Some(
                    ExprModel::Boolean(
                        BoolModel { token: tok_model(t), value: t.typ == TokenType::TRUE },
                    ),
                )
            }),
    {
        Some(
            ExpressionVariants::Boolean(
                Boolean {
                    token: self.current_token.clone(),
                    value: self.current_token_is(TokenType::TRUE),
                },
            ),
        )
    }

    /// The current token as an integer leaf: its text converted to a
    /// 64-bit signed value, or a diagnostic and no expression when the
    /// conversion fails.
    fn parse_integer_literal(&mut self) -> (r: Option<ExpressionVariants>)
        requires
            old(self).wf(),
            scan_token(old(self).src(), old(self).cur()).typ == TokenType::INT,
        ensures
            final(self).wf(),
            final(self).src() == old(self).src(),
            final(self).cur() == old(self).cur(),
            final(self).peek_pos@ == old(self).peek_pos@,
            final(self).current_token == old(self).current_token,
            final(self).peek_token == old(self).peek_token,
            ({
                let t = scan_token(old(self).src(), old(self).cur());
                match spec_parse_i64(t.literal) {
                    Some(v) => opt_expr_model(r) == Some(
                        ExprModel::Integer(IntLitModel { token: tok_model(t), value: v }),
                    ) && final(self).errs() == old(self).errs(),
                    None => r is None && final(self).errs() == old(self).errs().push(
                        int_error_msg(t.literal),
                    ),
                }
            }),
    {
        let value = i64_from_digits(self.current_token.literal.as_str());
        match value {
            Some(v) => Some(
                ExpressionVariants::Integer(
                    IntegerLiteral { token: self.current_token.clone(), value: v },
                ),
            ),
            None => {
                let mut message = String::from_str("Could not parse ");
                message.append(self.current_token.literal.as_str());
                message.append(" as integer");
                proof {
                    lemma_msgs_push(self.errors@, message);
                }
                self.errors.push(message);
                None
            },
        }
    }

    /// A prefix-operator expression: capture the operator, advance, parse
    /// the operand at the prefix level. A failed operand yields no
    /// expression.
    #[verifier::rlimit(60)]
    fn parse_prefix_expression(&mut self) -> (r: Option<ExpressionVariants>)
        requires
            old(self).wf(),
            scan_token(old(self).src(), old(self).cur()).typ == TokenType::BANG || scan_token(
                old(self).src(),
                old(self).cur(),
            ).typ == TokenType::MINUS,
        ensures
            final(self).wf(),
            final(self).src() == old(self).src(),
            ({
                let t = scan_token(old(self).src(), old(self).cur());
                let b = next_pos(old(self).src(), old(self).cur());
                let r0 = spec_parse_expression(old(self).src(), b, 5);
                final(self).cur() == r0.pos && final(self).errs() == old(self).errs() + r0.errs
                    && (match r0.expr {
                    Some(operand) => opt_expr_model(r) == Some(
                        ExprModel::Prefix(
                            PrefixModel {
                                token: tok_model(t),
                                operator: t.literal,
                                right: Box::new(operand),
                            },
                        ),
                    ),
                    None => r is None,
                })
            }),
        decreases self.src().len() - self.cur(), 0int,
    {
        let ghost src = old(self).src();
        let ghost a = old(self).cur();
        proof {
            crate::lexer::lemma_scan_token_bounds(src, a);
            lemma_next_pos(src, a);
        }
        let token = self.current_token.clone();
        let operator = self.current_token.literal.clone();
        self.next_token();
        let prefix_level = Precedence::PREFIX.index();
        match self.parse_expression(prefix_level) {
            Some(ex) => {
                proof {
                    assert(old(self).errs() + Seq::<Seq<char>>::empty() =~= old(self).errs());
                }
                Some(
                    ExpressionVariants::Prefix(
                        PrefixExpression { token, operator, right: Box::new(ex) },
                    ),
                )
            },
            None => None,
        }
    }

    /// An infix-operator expression: capture the operator and its
    /// precedence, advance, parse the right operand at that precedence,
    /// and fold it with the given left operand. A failed operand yields no
    /// expression.
    #[verifier::rlimit(60)]
    fn parse_infix_expression(&mut self, left: ExpressionVariants) -> (r: Option<
        ExpressionVariants,
    >)
        requires
            old(self).wf(),
            has_infix_rule(scan_token(old(self).src(), old(self).cur()).typ),
        ensures
            final(self).wf(),
            final(self).src() == old(self).src(),
            ({
                let pk = scan_token(old(self).src(), old(self).cur());
                let c = next_pos(old(self).src(), old(self).cur());
                let r0 = spec_parse_expression(old(self).src(), c, spec_precedence(pk.typ));
                final(self).cur() == r0.pos && final(self).errs() == old(self).errs() + r0.errs
                    && (match r0.expr {
                    Some(right) => opt_expr_model(r) == Some(
                        ExprModel::Infix(
                            InfixModel {
                                token: tok_model(pk),
                                left: Box::new(expr_model(left)),
                                operator: pk.literal,
                                right: Box::new(right),
                            },
                        ),
                    ),
                    None => r is None,
                })
            }),
        decreases self.src().len() - self.cur(), 0int,
    {
        let ghost src = old(self).src();
        let ghost a = old(self).cur();
        proof {
            crate::lexer::lemma_scan_token_bounds(src, a);
            lemma_next_pos(src, a);
        }
        let token = self.current_token.clone();
        let operator = self.current_token.literal.clone();
        let precedence = self.current_precedence();
        self.next_token();
        match self.parse_expression(precedence) {
            Some(ex) => {
                proof {
                    assert(old(self).errs() + Seq::<Seq<char>>::empty() =~= old(self).errs());
                }
                Some(
                    ExpressionVariants::Infix(
                        InfixExpression {
                            token,
                            left: Box::new(left),
                            operator,
                            right: Box::new(ex),
                        },
                    ),
                )
            },
            None => None,
        }
    }

    /// One expression parsed with the given floor: the prefix rule for the
    /// current token produces the initial expression (recording a
    /// diagnostic and yielding nothing when there is none), then every
    /// following operator that is not a semicolon, binds tighter than the
    /// floor, and has an infix rule is folded in, left to right.
    #[verifier::rlimit(100)]
    fn parse_expression(&mut self, precedence: usize) -> (r: Option<ExpressionVariants>)
        requires
            old(self).wf(),
        ensures
            final(self).wf(),
            final(self).src() == old(self).src(),
            ({
                let r0 = spec_parse_expression(old(self).src(), old(self).cur(), precedence as int);
                opt_expr_model(r) == r0.expr && final(self).cur() == r0.pos && final(self).errs()
                    == old(self).errs() + r0.errs
            }),
        decreases self.src().len() - self.cur(), 1int,
    {
        let ghost src = old(self).src();
        let ghost a = old(self).cur();
        let ghost floor = precedence as int;
        let ghost target = spec_parse_expression(src, a, floor);
        proof {
            crate::lexer::lemma_scan_token_bounds(src, a);
            lemma_next_pos(src, a);
        }
        let mut left: ExpressionVariants;
        match self.current_token.typ {
            TokenType::IDENT => {
                match self.parse_identifier() {
                    Some(l) => {
                        left = l;
                    },
                    None => {
                        return None;
                    },
                }
            },
            TokenType::INT => {
                match self.parse_integer_literal() {
                    Some(l) => {
                        proof {
                            assert(old(self).errs() + Seq::<Seq<char>>::empty() =~= old(
                                self,
                            ).errs());
                        }
                        left = l;
                    },
                    None => {
                        proof {
                            let t = scan_token(src, a);
                            assert(old(self).errs() + seq![int_error_msg(t.literal)] =~= old(
                                self,
                            ).errs().push(int_error_msg(t.literal)));
                        }
                        return None;
                    },
                }
            },
            TokenType::TRUE | TokenType::FALSE => {
                match self.parse_boolean() {
                    Some(l) => {
                        left = l;
                    },
                    None => {
                        return None;
                    },
                }
            },
            TokenType::BANG | TokenType::MINUS => {
                match self.parse_prefix_expression() {
                    Some(l) => {
                        proof {
                            let b = next_pos(src, a);
                            lemma_parse_expression_pos(src, b, 5);
                            let rp = spec_parse_expression(src, b, 5);
                            assert(clamp_pos(src, rp.pos, b) == rp.pos);
                        }
                        left = l;
                    },
                    None => {
                        return None;
                    },
                }
            },
            _ => {
                let t = self.current_token.typ;
                self.no_prefix_parse_fn_error(t);
                proof {
                    assert(old(self).errs() + seq![no_prefix_msg(scan_token(src, a).typ)] =~= old(
                        self,
                    ).errs().push(no_prefix_msg(scan_token(src, a).typ)));
                }
                return None;
            },
        }
        #[verifier::loop_isolation(false)]
        while !self.peek_token_is(TokenType::SEMICOLON) && precedence < self.peek_preference()
            invariant
                self.wf(),
                self.src() == src,
                floor == precedence as int,
                target == spec_parse_expression(src, a, floor),
                0 <= a <= self.cur() <= src.len(),
                ({
                    let c = spec_climb(src, expr_model(left), self.cur(), floor);
                    target.expr == c.expr && target.pos == c.pos && old(self).errs() + target.errs
                        == self.errs() + c.errs
                }),
            decreases src.len() - self.cur(),
        {
            let ghost a1 = self.cur();
            let ghost b = next_pos(src, a1);
            let ghost errs1 = self.errs();
            let ghost cl_old = spec_climb(src, expr_model(left), a1, floor);
            proof {
                crate::lexer::lemma_scan_token_bounds(src, a1);
                lemma_next_pos(src, a1);
                crate::lexer::lemma_scan_token_bounds(src, b);
                lemma_next_pos(src, b);
            }
            let pt = self.peek_token.typ;
            if !infix_rule_for(pt) {
                proof {
                    lemma_climb_exit(src, expr_model(left), a1, floor);
                    assert(errs1 + Seq::<Seq<char>>::empty() =~= errs1);
                }
                return Some(left);
            }
            let ghost c = next_pos(src, b);
            let ghost pk = scan_token(src, b);
            let ghost rp = spec_parse_expression(src, c, spec_precedence(pk.typ));
            proof {
                lemma_parse_expression_pos(src, c, spec_precedence(pk.typ));
                assert(b < src.len());
                assert(clamp_pos(src, rp.pos, b + 1) == rp.pos);
            }
            let ghost left_model = expr_model(left);
            proof {
                assert(pk.typ != TokenType::SEMICOLON);
                assert(floor < spec_precedence(pk.typ));
                assert(has_infix_rule(pk.typ));
                lemma_climb_unfold(src, left_model, a1, floor);
            }
            self.next_token();
            proof {
                assert(self.cur() == b);
                assert(src.len() - self.cur() < src.len() - a);
            }
            match self.parse_infix_expression(left) {
                Some(e) => {
                    proof {
                        let node = ExprModel::Infix(
                            InfixModel {
                                token: tok_model(pk),
                                left: Box::new(left_model),
                                operator: pk.literal,
                                right: Box::new(rp.expr->Some_0),
                            },
                        );
                        let cl_new = spec_climb(src, node, rp.pos, floor);
                        assert(cl_old.expr == cl_new.expr && cl_old.pos == cl_new.pos
                            && cl_old.errs == rp.errs + cl_new.errs);
                        assert(expr_model(e) == node);
                        assert(errs1 + (rp.errs + cl_new.errs) =~= (errs1 + rp.errs)
                            + cl_new.errs);
                        assert(self.errs() == errs1 + rp.errs);
                        assert(old(self).errs() + target.errs == self.errs() + cl_new.errs);
                    }
                    left = e;
                },
                None => {
                    proof {
                        assert(cl_old == (ExprOut { expr: None, pos: rp.pos, errs: rp.errs }));
                        assert(self.errs() == errs1 + rp.errs);
                        assert(old(self).errs() + target.errs == self.errs());
                    }
                    return None;
                },
            }
        }
        proof {
            crate::lexer::lemma_scan_token_bounds(src, self.cur());
            lemma_next_pos(src, self.cur());
            lemma_climb_exit(src, expr_model(left), self.cur(), floor);
            assert(self.errs() + Seq::<Seq<char>>::empty() =~= self.errs());
        }
        Some(left)
    }
}

/// Appending a statement appends its model.
pub proof fn lemma_stmts_model_push(ss: Seq<StatementVariant>, x: StatementVariant)
    ensures
        stmts_model_from(ss.push(x), 0) =~= stmts_model_from(ss, 0).push(stmt_model(x)),
{
    lemma_stmts_model_from(ss.push(x), 0);
    lemma_stmts_model_from(ss, 0);
}

impl Parser {
    /// A `let` statement: `let`, a bound name, `=`, the value expression,
    /// and an optional trailing semicolon. A missing name or `=` records a
    /// diagnostic and produces no node, as does a failed value expression.
    fn parse_let_statement(&mut self) -> (r: Option<StatementVariant>)
        requires
            old(self).wf(),
        ensures
            final(self).wf(),
            final(self).src() == old(self).src(),
            ({
                let r0 = spec_parse_let(old(self).src(), old(self).cur());
                opt_stmt_model(r) == r0.stmt && final(self).cur() == r0.pos && final(self).errs()
                    == old(self).errs() + r0.errs
            }),
    {
        let ghost src = old(self).src();
        let ghost a = old(self).cur();
        proof {
            crate::lexer::lemma_scan_token_bounds(src, a);
            lemma_next_pos(src, a);
        }
        let ghost b = next_pos(src, a);
        proof {
            crate::lexer::lemma_scan_token_bounds(src, b);
            lemma_next_pos(src, b);
        }
        let token = self.current_token.clone();
        if !self.expect_peek(TokenType::IDENT) {
            proof {
                let m = peek_error_msg(TokenType::IDENT, scan_token(src, b).typ);
                assert(old(self).errs() + seq![m] =~= old(self).errs().push(m));
            }
            return None;
        }
        let ghost c = next_pos(src, b);
        proof {
            crate::lexer::lemma_scan_token_bounds(src, c);
            lemma_next_pos(src, c);
        }
        let name = Identifier {
            token: self.current_token.clone(),
            value: self.current_token.literal.clone(),
        };
        if !self.expect_peek(TokenType::ASSIGN) {
            proof {
                let m = peek_error_msg(TokenType::ASSIGN, scan_token(src, c).typ);
                assert(old(self).errs() + seq![m] =~= old(self).errs().push(m));
            }
            return None;
        }
        let ghost d = next_pos(src, c);
        self.next_token();
        let ghost rv = spec_parse_expression(src, d, 0);
        let value = match self.parse_expression(Precedence::LOWEST.index()) {
            Some(v) => v,
            None => {
                return None;
            },
        };
        proof {
            lemma_parse_expression_pos(src, d, 0);
            crate::lexer::lemma_scan_token_bounds(src, rv.pos);
            lemma_next_pos(src, rv.pos);
        }
        if self.peek_token_is(TokenType::SEMICOLON) {
            self.next_token();
        }
        Some(StatementVariant::Let(LetStatement { token, name, value: Some(value) }))
    }

    /// A `return` statement: `return`, the value expression, and an
    /// optional trailing semicolon. A failed value expression produces no
    /// node.
    fn parse_return_statement(&mut self) -> (r: Option<StatementVariant>)
        requires
            old(self).wf(),
        ensures
            final(self).wf(),
            final(self).src() == old(self).src(),
            ({
                let r0 = spec_parse_return(old(self).src(), old(self).cur());
                opt_stmt_model(r) == r0.stmt && final(self).cur() == r0.pos && final(self).errs()
                    == old(self).errs() + r0.errs
            }),
    {
        let ghost src = old(self).src();
        let ghost a = old(self).cur();
        proof {
            crate::lexer::lemma_scan_token_bounds(src, a);
            lemma_next_pos(src, a);
        }
        let ghost b = next_pos(src, a);
        let token = self.current_token.clone();
        self.next_token();
        let ghost rv = spec_parse_expression(src, b, 0);
        let value = match self.parse_expression(Precedence::LOWEST.index()) {
            Some(v) => v,
            None => {
                return None;
            },
        };
        proof {
            lemma_parse_expression_pos(src, b, 0);
            crate::lexer::lemma_scan_token_bounds(src, rv.pos);
            lemma_next_pos(src, rv.pos);
        }
        if self.peek_token_is(TokenType::SEMICOLON) {
            self.next_token();
        }
        Some(StatementVariant::Return(ReturnStatement { token, return_value: Some(value) }))
    }

    /// An expression statement: a bare expression and an optional trailing
    /// semicolon, so any expression followed by `;` is a valid statement.
    /// A failed expression produces no node.
    fn parse_expression_statements(&mut self) -> (r: Option<StatementVariant>)
        requires
            old(self).wf(),
        ensures
            final(self).wf(),
            final(self).src() == old(self).src(),
            ({
                let r0 = spec_parse_expr_statement(old(self).src(), old(self).cur());
                opt_stmt_model(r) == r0.stmt && final(self).cur() == r0.pos && final(self).errs()
                    == old(self).errs() + r0.errs
            }),
    {
        let ghost src = old(self).src();
        let ghost a = old(self).cur();
        proof {
            crate::lexer::lemma_scan_token_bounds(src, a);
            lemma_next_pos(src, a);
        }
        let token = self.current_token.clone();
        let ghost rv = spec_parse_expression(src, a, 0);
        let expression = match self.parse_expression(Precedence::LOWEST.index()) {
            Some(e) => e,
            None => {
                return None;
            },
        };
        proof {
            lemma_parse_expression_pos(src, a, 0);
            crate::lexer::lemma_scan_token_bounds(src, rv.pos);
            lemma_next_pos(src, rv.pos);
        }
        if self.peek_token_is(TokenType::SEMICOLON) {
            self.next_token();
        }
        Some(
            StatementVariant::Expression(ExpressionStatement { token, expression: Some(expression) }),
        )
    }

    /// One statement, dispatched on the current token: `let` and `return`
    /// by their keyword, anything else parsed as an expression statement.
    fn parse_statement(&mut self) -> (r: Option<StatementVariant>)
        requires
            old(self).wf(),
        ensures
            final(self).wf(),
            final(self).src() == old(self).src(),
            ({
                let r0 = spec_parse_statement(old(self).src(), old(self).cur());
                opt_stmt_model(r) == r0.stmt && final(self).cur() == r0.pos && final(self).errs()
                    == old(self).errs() + r0.errs
            }),
    {
        match self.current_token.typ {
            TokenType::LET => self.parse_let_statement(),
            TokenType::RETURN => self.parse_return_statement(),
            _ => self.parse_expression_statements(),
        }
    }

    /// The whole program: statements parsed one after another until the
    /// end-of-file token. A failed construct contributes no node — its
    /// diagnostics accumulate — and parsing resumes at the next token, so
    /// one error never aborts the parse.
    pub fn parse_program(&mut self) -> (program: Program)
        requires
            old(self).wf(),
        ensures
            final(self).wf(),
            final(self).src() == old(self).src(),
            ({
                let r0 = spec_parse_program(old(self).src(), old(self).cur());
                program@ == r0.stmts && final(self).errs() == old(self).errs() + r0.errs
            }),
    {
        let ghost src = old(self).src();
        let ghost a0 = old(self).cur();
        let ghost target = spec_parse_program(src, a0);
        let mut program = Program { statements: Vec::new() };
        proof {
            assert(program@ =~= Seq::<StmtModel>::empty());
            assert(program@ + target.stmts =~= target.stmts);
        }
        #[verifier::loop_isolation(false)]
        while !self.current_token_is(TokenType::EOF)
            invariant
                self.wf(),
                self.src() == src,
                0 <= a0 <= self.cur() <= src.len(),
                ({
                    let rem = spec_parse_program(src, self.cur());
                    target.stmts == program@ + rem.stmts && old(self).errs() + target.errs
                        == self.errs() + rem.errs
                }),
            decreases src.len() - self.cur(),
        {
            let ghost a1 = self.cur();
            let ghost rs = spec_parse_statement(src, a1);
            let ghost errs1 = self.errs();
            let ghost prog1 = program@;
            proof {
                crate::lexer::lemma_scan_token_bounds(src, a1);
                lemma_parse_statement_pos(src, a1);
                lemma_next_pos(src, a1);
            }
            let statement = self.parse_statement();
            proof {
                crate::lexer::lemma_scan_token_bounds(src, rs.pos);
                lemma_next_pos(src, rs.pos);
                assert(clamp_pos(src, rs.pos, a1) == rs.pos);
            }
            if let Some(statement_variant) = statement {
                proof {
                    lemma_stmts_model_push(program.statements@, statement_variant);
                }
                program.statements.push(statement_variant);
            }
            self.next_token();
            proof {
                let a2 = next_pos(src, rs.pos);
                assert(clamp_pos(src, a2, a1 + 1) == a2);
                assert(self.cur() == a2);
                let rem1 = spec_parse_program(src, a1);
                let rem2 = spec_parse_program(src, a2);
                assert(rem1.stmts == (match rs.stmt {
                    Some(s) => seq![s] + rem2.stmts,
                    None => rem2.stmts,
                }) && rem1.errs == rs.errs + rem2.errs);
                match rs.stmt {
                    Some(s) => {
                        assert(program@ =~= prog1.push(s));
                        assert(prog1 + (seq![s] + rem2.stmts) =~= prog1.push(s) + rem2.stmts);
                    },
                    None => {},
                }
                assert(errs1 + (rs.errs + rem2.errs) =~= (errs1 + rs.errs) + rem2.errs);
            }
        }
        proof {
            crate::lexer::lemma_scan_token_bounds(src, self.cur());
            let rem = spec_parse_program(src, self.cur());
            assert(rem.stmts =~= Seq::<StmtModel>::empty());
            assert(program@ + rem.stmts =~= program@);
            assert(self.errs() + rem.errs =~= self.errs());
        }
        program
    }
}

/// A statement node is complete: its expression payload is present.
pub open spec fn stmt_complete(s: StmtModel) -> bool {
    match s {
        StmtModel::Let(m) => m.value is Some,
        StmtModel::Return(m) => m.value is Some,
        StmtModel::Expression(m) => m.expression is Some,
    }
}

/// A parsed program never exposes an absent payload: a construct that
/// failed yields no node at all — reflected in the diagnostics instead —
/// so every statement the parse attaches is complete.
pub proof fn lemma_program_statements_complete(input: Seq<char>, a: int)
    ensures
        forall|i: int|
            0 <= i < spec_parse_program(input, a).stmts.len() ==> #[trigger] stmt_complete(
                spec_parse_program(input, a).stmts[i],
            ),
    decreases input.len() - a, 5int,
{
    if !(a < 0 || a > input.len()) && scan_token(input, a).typ != TokenType::EOF {
        let r = spec_parse_statement(input, a);
        let a2 = clamp_pos(input, next_pos(input, clamp_pos(input, r.pos, a)), a + 1);
        lemma_program_statements_complete(input, a2);
        let rest = spec_parse_program(input, a2);
        match r.stmt {
            Some(s) => {
                assert(stmt_complete(s));
                assert forall|i: int|
                    0 <= i < spec_parse_program(input, a).stmts.len() implies stmt_complete(
                    spec_parse_program(input, a).stmts[i],
                ) by {
                    if i > 0 {
                        assert(spec_parse_program(input, a).stmts[i] == rest.stmts[i - 1]);
                    }
                }
            },
            None => {},
        }
    }
}

/// Re-parsing a rendered construct reproduces the rendering, shown here
/// for the constructs whose rendering is a bare name: a program holding
/// one identifier expression statement. (A rendered prefix or infix node
/// is parenthesized, and the grammar has no grouping rule, so those
/// renderings do not re-parse.) Parsing the rendering succeeds with no
/// diagnostics and renders back to the same text.
pub proof fn lemma_identifier_render_reparses(name: Seq<char>)
    requires
        name.len() > 0,
        forall|i: int| 0 <= i < name.len() ==> crate::lexer::is_letter_char(name[i]),
        crate::token::keyword_type(name) == TokenType::IDENT,
    ensures
        spec_parse_program(name, 0).errs =~= Seq::<Seq<char>>::empty(),
        spec_parse_program(name, 0).stmts.len() == 1,
        crate::ast::render_stmts_from(spec_parse_program(name, 0).stmts, 0) == name,
{
    let len = name.len() as int;
    assert(!crate::lexer::is_ws_char(name[0]));
    crate::lexer::lemma_ident_end_all_letters(name, 0);
    let st = scan_token(name, 0);
    assert(name.subrange(0, len) =~= name);
    assert(st.typ == TokenType::IDENT && st.literal == name && st.end == len);
    crate::lexer::lemma_scan_token_bounds(name, 0);
    lemma_next_pos(name, 0);
    assert(next_pos(name, 0) == len);
    let eof = scan_token(name, len);
    assert(eof.typ == TokenType::EOF);
    let leaf = ExprModel::Ident(IdentModel { token: tok_model(st), value: name });
    lemma_climb_exit(name, leaf, 0, 0);
    let r = spec_parse_expression(name, 0, 0);
    assert(r == (ExprOut { expr: Some(leaf), pos: 0, errs: Seq::<Seq<char>>::empty() }));
    let rs = spec_parse_statement(name, 0);
    assert(after_opt_semicolon(name, 0) == 0);
    let stmt = StmtModel::Expression(
        ExprStmtModel { token: tok_model(st), expression: Some(leaf) },
    );
    assert(rs.stmt == Some(stmt) && rs.pos == 0 && rs.errs =~= Seq::<Seq<char>>::empty());
    let a2 = clamp_pos(name, next_pos(name, clamp_pos(name, rs.pos, 0)), 1);
    assert(a2 == len);
    assert(spec_parse_program(name, len).stmts =~= Seq::<StmtModel>::empty());
    assert(spec_parse_program(name, len).errs =~= Seq::<Seq<char>>::empty());
    let out = spec_parse_program(name, 0);
    assert(out.stmts =~= seq![stmt]);
    assert(out.errs =~= Seq::<Seq<char>>::empty());
    assert(out.stmts[0] == stmt);
    assert(crate::ast::render_expr(leaf) == name);
    assert(crate::ast::render_stmt(stmt) == name);
    assert(crate::ast::render_stmts_from(out.stmts, 1) =~= Seq::<char>::empty());
    assert(crate::ast::render_stmts_from(out.stmts, 0) =~= name);
}

} // verus!
