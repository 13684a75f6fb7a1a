//! The syntax-tree data model: tagged unions for statements and
//! expressions, each able to render itself back to canonical text. The
//! canonical rendering parenthesizes every prefix and infix node, which is
//! how correct precedence grouping is observed.

use vstd::prelude::*;
use vstd::string::StringExecFns;
use crate::token::{Token, TokenModel};

verus! {

broadcast use vstd::string::group_string_axioms;

/// The mathematical value of an identifier node.
pub ghost struct IdentModel {
    pub token: TokenModel,
    pub value: Seq<char>,
}

/// The mathematical value of an integer-literal node.
pub ghost struct IntLitModel {
    pub token: TokenModel,
    pub value: i64,
}

/// The mathematical value of a boolean-literal node.
pub ghost struct BoolModel {
    pub token: TokenModel,
    pub value: bool,
}

/// The mathematical value of a prefix-operator node.
pub ghost struct PrefixModel {
    pub token: TokenModel,
    pub operator: Seq<char>,
    pub right: Box<ExprModel>,
}

/// The mathematical value of an infix-operator node.
pub ghost struct InfixModel {
    pub token: TokenModel,
    pub left: Box<ExprModel>,
    pub operator: Seq<char>,
    pub right: Box<ExprModel>,
}

/// The mathematical value of a conditional node.
pub ghost struct IfModel {
    pub token: TokenModel,
    pub condition: Box<ExprModel>,
    pub consequence: BlockModel,
    pub alternative: Option<BlockModel>,
}

/// The mathematical value of an expression: the closed union of the
/// expression node kinds.
pub ghost enum ExprModel {
    Ident(IdentModel),
    Integer(IntLitModel),
    Boolean(BoolModel),
    Prefix(PrefixModel),
    Infix(InfixModel),
    If(IfModel),
}

/// The mathematical value of a block of statements.
pub ghost struct BlockModel {
    pub token: TokenModel,
    pub statements: Seq<StmtModel>,
}

/// The mathematical value of a `let` statement.
pub ghost struct LetModel {
    pub token: TokenModel,
    pub name: IdentModel,
    pub value: Option<ExprModel>,
}

/// The mathematical value of a `return` statement.
pub ghost struct ReturnModel {
    pub token: TokenModel,
    pub value: Option<ExprModel>,
}

/// The mathematical value of an expression statement.
pub ghost struct ExprStmtModel {
    pub token: TokenModel,
    pub expression: Option<ExprModel>,
}

/// The mathematical value of a statement: the closed union of the
/// statement node kinds.
pub ghost enum StmtModel {
    Let(LetModel),
    Return(ReturnModel),
    Expression(ExprStmtModel),
}

/// The canonical rendering of an expression. Identifiers and literals
/// render as their text; prefix and infix nodes render fully
/// parenthesized; a conditional renders as `if` followed by the condition,
/// a space, the consequence, and `else ` with the alternative when there
/// is one.
pub open spec fn render_expr(e: ExprModel) -> Seq<char>
    decreases e, 0int,
{
    match e {
        ExprModel::Ident(m) => m.value,
        ExprModel::Integer(m) => m.token.literal,
        ExprModel::Boolean(m) => m.token.literal,
        ExprModel::Prefix(m) => seq!['('] + m.operator + render_expr(*m.right) + seq![')'],
        ExprModel::Infix(m) => seq!['('] + render_expr(*m.left) + seq![' '] + m.operator
            + seq![' '] + render_expr(*m.right) + seq![')'],
        ExprModel::If(m) => seq!['i', 'f'] + render_expr(*m.condition) + seq![' '] + render_block(
            m.consequence,
        ) + render_alternative(m.alternative),
    }
}

/// The rendering of a block: its statements' renderings concatenated.
pub open spec fn render_block(b: BlockModel) -> Seq<char>
    decreases b, 1int,
{
    render_stmts_from(b.statements, 0)
}

/// The rendering of a conditional's alternative, empty when absent.
pub open spec fn render_alternative(alt: Option<BlockModel>) -> Seq<char>
    decreases alt, 1int,
{
    match alt {
        Some(b) => seq!['e', 'l', 's', 'e', ' '] + render_block(b),
        None => Seq::<char>::empty(),
    }
}

/// The rendering of an optional expression, empty when absent.
pub open spec fn render_opt_expr(e: Option<ExprModel>) -> Seq<char>
    decreases e, 1int,
{
    match e {
        Some(x) => render_expr(x),
        None => Seq::<char>::empty(),
    }
}

/// The canonical rendering of one statement.
pub open spec fn render_stmt(s: StmtModel) -> Seq<char>
    decreases s, 1int,
{
    match s {
        StmtModel::Let(m) => m.token.literal + seq![' '] + m.name.value + seq![' ', '=', ' ']
            + render_opt_expr(m.value) + seq![';'],
        StmtModel::Return(m) => m.token.literal + seq![' '] + render_opt_expr(m.value) + seq![';'],
        StmtModel::Expression(m) => render_opt_expr(m.expression),
    }
}

/// The concatenated renderings of the statements from index `i` on, with
/// no separators.
pub open spec fn render_stmts_from(ss: Seq<StmtModel>, i: int) -> Seq<char>
    decreases ss, ss.len() - i,
{
    if 0 <= i < ss.len() {
        render_stmt(ss[i]) + render_stmts_from(ss, i + 1)
    } else {
        Seq::<char>::empty()
    }
}

/// The literal text of a statement's introducing token.
pub open spec fn stmt_token_literal(s: StmtModel) -> Seq<char> {
    match s {
        StmtModel::Let(m) => m.token.literal,
        StmtModel::Return(m) => m.token.literal,
        StmtModel::Expression(m) => m.token.literal,
    }
}

/// The literal text of an expression's introducing token.
pub open spec fn expr_token_literal(e: ExprModel) -> Seq<char> {
    match e {
        ExprModel::Ident(m) => m.token.literal,
        ExprModel::Integer(m) => m.token.literal,
        ExprModel::Boolean(m) => m.token.literal,
        ExprModel::Prefix(m) => m.token.literal,
        ExprModel::Infix(m) => m.token.literal,
        ExprModel::If(m) => m.token.literal,
    }
}

/// Every node exposes the literal of its introducing token and its
/// canonical rendering.
pub trait Node {
    fn token_literal(&self) -> String;

    fn string(&self) -> String;
}

/// The marker trait of statement nodes.
pub trait Statement: Node {
    fn statement_node(&self);
}

/// The marker trait of expression nodes.
pub trait Expression: Node {
    fn expression_node(&self);
}

/// An identifier expression: a name.
#[derive(Debug)]
pub struct Identifier {
    pub token: Token,
    pub value: String,
}

/// An integer-literal expression holding its 64-bit signed value.
#[derive(Debug)]
pub struct IntegerLiteral {
    pub token: Token,
    pub value: i64,
}

/// A boolean-literal expression.
#[derive(Debug)]
pub struct Boolean {
    pub token: Token,
    pub value: bool,
}

/// A prefix-operator expression: the operator applied to one operand.
#[derive(Debug)]
pub struct PrefixExpression {
    pub token: Token,
    pub operator: String,
    pub right: Box<ExpressionVariants>,
}

/// An infix-operator expression: the operator applied to two operands.
#[derive(Debug)]
pub struct InfixExpression {
    pub token: Token,
    pub left: Box<ExpressionVariants>,
    pub operator: String,
    pub right: Box<ExpressionVariants>,
}

/// A conditional expression: a condition, a consequence block, and an
/// optional alternative block.
#[derive(Debug)]
pub struct IfExpression {
    pub token: Token,
    pub condition: Box<ExpressionVariants>,
    pub consequence: BlockStatement,
    pub alternative: Option<BlockStatement>,
}

/// The closed union of expression nodes.
#[derive(Debug)]
pub enum ExpressionVariants {
    Ident(Identifier),
    Integer(IntegerLiteral),
    Prefix(PrefixExpression),
    Infix(InfixExpression),
    Boolean(Boolean),
    If(IfExpression),
}

/// An expression slot that may be empty while a construct is still being
/// parsed.
pub type ExpressionVariant = Option<ExpressionVariants>;

/// A block of statements, the body of a conditional construct.
#[derive(Debug)]
pub struct BlockStatement {
    pub token: Token,
    pub statements: Vec<StatementVariant>,
}

/// A `let` statement binding a name to a value.
#[derive(Debug)]
pub struct LetStatement {
    pub token: Token,
    pub name: Identifier,
    pub value: ExpressionVariant,
}

/// A `return` statement carrying its value.
#[derive(Debug)]
pub struct ReturnStatement {
    pub token: Token,
    pub return_value: ExpressionVariant,
}

/// A statement consisting of a bare expression followed by an optional
/// semicolon.
#[derive(Debug)]
pub struct ExpressionStatement {
    pub token: Token,
    pub expression: ExpressionVariant,
}

/// The closed union of statement nodes.
#[derive(Debug)]
pub enum StatementVariant {
    Let(LetStatement),
    Return(ReturnStatement),
    Expression(ExpressionStatement),
}

/// The root of the tree: the ordered sequence of top-level statements.
#[derive(Debug)]
pub struct Program {
    pub statements: Vec<StatementVariant>,
}

/// The mathematical value of an identifier node.
pub open spec fn ident_model(i: Identifier) -> IdentModel {
    IdentModel { token: i.token@, value: i.value@ }
}

/// The mathematical value of an expression node.
pub open spec fn expr_model(e: ExpressionVariants) -> ExprModel
    decreases e, 0int,
{
    match e {
        ExpressionVariants::Ident(i) => ExprModel::Ident(ident_model(i)),
        ExpressionVariants::Integer(n) => ExprModel::Integer(
            IntLitModel { token: n.token@, value: n.value },
        ),
        ExpressionVariants::Boolean(b) => ExprModel::Boolean(
            BoolModel { token: b.token@, value: b.value },
        ),
        ExpressionVariants::Prefix(p) => ExprModel::Prefix(prefix_model(p)),
        ExpressionVariants::Infix(n) => ExprModel::Infix(infix_model(n)),
        ExpressionVariants::If(f) => ExprModel::If(if_model(f)),
    }
}

/// The mathematical value of a prefix node.
pub open spec fn prefix_model(p: PrefixExpression) -> PrefixModel
    decreases p, 1int,
{
    PrefixModel {
        token: p.token@,
        operator: p.operator@,
        right: Box::new(expr_model(*p.right)),
    }
}

/// The mathematical value of an infix node.
pub open spec fn infix_model(n: InfixExpression) -> InfixModel
    decreases n, 1int,
{
    InfixModel {
        token: n.token@,
        left: Box::new(expr_model(*n.left)),
        operator: n.operator@,
        right: Box::new(expr_model(*n.right)),
    }
}

/// The mathematical value of a conditional node.
pub open spec fn if_model(f: IfExpression) -> IfModel
    decreases f, 1int,
{
    IfModel {
        token: f.token@,
        condition: Box::new(expr_model(*f.condition)),
        consequence: block_model(f.consequence),
        alternative: match f.alternative {
            Some(b) => Some(block_model(b)),
            None => None,
        },
    }
}

/// The mathematical value of a block node.
pub open spec fn block_model(b: BlockStatement) -> BlockModel
    decreases b, 1int,
{
    BlockModel { token: b.token@, statements: stmts_model_from(b.statements@, 0) }
}

/// The mathematical value of an optional expression.
pub open spec fn opt_expr_model(o: Option<ExpressionVariants>) -> Option<ExprModel>
    decreases o, 1int,
{
    match o {
        Some(e) => Some(expr_model(e)),
        None => None,
    }
}

/// The mathematical value of one statement.
pub open spec fn stmt_model(s: StatementVariant) -> StmtModel
    decreases s, 1int,
{
    match s {
        StatementVariant::Let(l) => StmtModel::Let(
            LetModel { token: l.token@, name: ident_model(l.name), value: opt_expr_model(l.value) },
        ),
        StatementVariant::Return(r) => StmtModel::Return(
            ReturnModel { token: r.token@, value: opt_expr_model(r.return_value) },
        ),
        StatementVariant::Expression(x) => StmtModel::Expression(
            ExprStmtModel { token: x.token@, expression: opt_expr_model(x.expression) },
        ),
    }
}

/// The mathematical values of the statements from index `i` on.
pub open spec fn stmts_model_from(ss: Seq<StatementVariant>, i: int) -> Seq<StmtModel>
    decreases ss, ss.len() - i,
{
    if 0 <= i < ss.len() {
        seq![stmt_model(ss[i])] + stmts_model_from(ss, i + 1)
    } else {
        Seq::<StmtModel>::empty()
    }
}

/// The statement models from index `i` on are the models of the statements
/// from index `i` on, one for one.
pub proof fn lemma_stmts_model_from(ss: Seq<StatementVariant>, i: int)
    requires
        0 <= i <= ss.len(),
    ensures
        stmts_model_from(ss, i).len() == ss.len() - i,
        forall|j: int|
            0 <= j < ss.len() - i ==> #[trigger] stmts_model_from(ss, i)[j] == stmt_model(
                ss[i + j],
            ),
    decreases ss.len() - i,
{
    if i < ss.len() {
        lemma_stmts_model_from(ss, i + 1);
        assert(forall|j: int|
            0 <= j < ss.len() - i ==> #[trigger] stmts_model_from(ss, i)[j] == stmt_model(
                ss[i + j],
            ));
    }
}

impl View for Identifier {
    type V = IdentModel;

    open spec fn view(&self) -> IdentModel {
        ident_model(*self)
    }
}

impl View for IntegerLiteral {
    type V = IntLitModel;

    open spec fn view(&self) -> IntLitModel {
        IntLitModel { token: self.token@, value: self.value }
    }
}

impl View for Boolean {
    type V = BoolModel;

    open spec fn view(&self) -> BoolModel {
        BoolModel { token: self.token@, value: self.value }
    }
}

impl View for PrefixExpression {
    type V = PrefixModel;

    open spec fn view(&self) -> PrefixModel {
        prefix_model(*self)
    }
}

impl View for InfixExpression {
    type V = InfixModel;

    open spec fn view(&self) -> InfixModel {
        infix_model(*self)
    }
}

impl View for IfExpression {
    type V = IfModel;

    open spec fn view(&self) -> IfModel {
        if_model(*self)
    }
}

impl View for ExpressionVariants {
    type V = ExprModel;

    open spec fn view(&self) -> ExprModel {
        expr_model(*self)
    }
}

impl View for BlockStatement {
    type V = BlockModel;

    open spec fn view(&self) -> BlockModel {
        block_model(*self)
    }
}

impl View for LetStatement {
    type V = StmtModel;

    open spec fn view(&self) -> StmtModel {
        stmt_model(StatementVariant::Let(*self))
    }
}

impl View for ReturnStatement {
    type V = StmtModel;

    open spec fn view(&self) -> StmtModel {
        stmt_model(StatementVariant::Return(*self))
    }
}

impl View for ExpressionStatement {
    type V = StmtModel;

    open spec fn view(&self) -> StmtModel {
        stmt_model(StatementVariant::Expression(*self))
    }
}

impl View for StatementVariant {
    type V = StmtModel;

    open spec fn view(&self) -> StmtModel {
        stmt_model(*self)
    }
}

impl View for Program {
    type V = Seq<StmtModel>;

    open spec fn view(&self) -> Seq<StmtModel> {
        stmts_model_from(self.statements@, 0)
    }
}

/// The views of the punctuation literals the renderers are written with.
proof fn lemma_render_literals()
    ensures
        "("@ == seq!['('],
        ")"@ == seq![')'],
        " "@ == seq![' '],
        " = "@ == seq![' ', '=', ' '],
        ";"@ == seq![';'],
        "if"@ == seq!['i', 'f'],
        "else "@ == seq!['e', 'l', 's', 'e', ' '],
{
    reveal_strlit("(");
    reveal_strlit(")");
    reveal_strlit(" ");
    reveal_strlit(" = ");
    reveal_strlit(";");
    reveal_strlit("if");
    reveal_strlit("else ");
    assert("("@.len() == 1 && "("@[0] == '(');
    assert("("@ =~= seq!['(']);
    assert(")"@.len() == 1 && ")"@[0] == ')');
    assert(")"@ =~= seq![')']);
    assert(" "@.len() == 1 && " "@[0] == ' ');
    assert(" "@ =~= seq![' ']);
    assert(" = "@.len() == 3 && " = "@[0] == ' ' && " = "@[1] == '=' && " = "@[2] == ' ');
    assert(" = "@ =~= seq![' ', '=', ' ']);
    assert(";"@.len() == 1 && ";"@[0] == ';');
    assert(";"@ =~= seq![';']);
    assert("if"@.len() == 2 && "if"@[0] == 'i' && "if"@[1] == 'f');
    assert("if"@ =~= seq!['i', 'f']);
    assert("else "@.len() == 5 && "else "@[0] == 'e' && "else "@[1] == 'l' && "else "@[2] == 's'
        && "else "@[3] == 'e' && "else "@[4] == ' ');
    assert("else "@ =~= seq!['e', 'l', 's', 'e', ' ']);
}

impl Identifier {
    /// The literal of the identifier's token.
    pub fn token_literal(&self) -> (r: String)
        ensures
            r@ == self@.token.literal,
    {
        self.token.literal.clone()
    }

    /// An identifier renders as its name.
    pub fn string(&self) -> (r: String)
        ensures
            r@ == render_expr(ExprModel::Ident(self@)),
    {
        self.value.clone()
    }
}

impl Node for Identifier {
    fn token_literal(&self) -> String {
        self.token_literal()
    }

    fn string(&self) -> String {
        self.string()
    }
}

impl Expression for Identifier {
    fn expression_node(&self) {
    }
}

impl IntegerLiteral {
    /// The literal of the integer's token.
    pub fn token_literal(&self) -> (r: String)
        ensures
            r@ == self@.token.literal,
    {
        self.token.literal.clone()
    }

    /// An integer literal renders as its token text.
    pub fn string(&self) -> (r: String)
        ensures
            r@ == render_expr(ExprModel::Integer(self@)),
    {
        self.token_literal()
    }
}

impl Node for IntegerLiteral {
    fn token_literal(&self) -> String {
        self.token_literal()
    }

    fn string(&self) -> String {
        self.string()
    }
}

impl Expression for IntegerLiteral {
    fn expression_node(&self) {
    }
}

impl Boolean {
    /// The literal of the boolean's token.
    pub fn token_literal(&self) -> (r: String)
        ensures
            r@ == self@.token.literal,
    {
        self.token.literal.clone()
    }

    /// A boolean literal renders as its token text.
    pub fn string(&self) -> (r: String)
        ensures
            r@ == render_expr(ExprModel::Boolean(self@)),
    {
        self.token.literal.clone()
    }
}

impl Node for Boolean {
    fn token_literal(&self) -> String {
        self.token_literal()
    }

    fn string(&self) -> String {
        self.string()
    }
}

impl Expression for Boolean {
    fn expression_node(&self) {
    }
}

impl PrefixExpression {
    /// The literal of the operator's token.
    pub fn token_literal(&self) -> (r: String)
        ensures
            r@ == self@.token.literal,
    {
        self.token.literal.clone()
    }

    /// A prefix node renders parenthesized: the operator, then its operand.
    pub fn string(&self) -> (r: String)
        ensures
            r@ == render_expr(ExprModel::Prefix(self@)),
        decreases *self,
    {
        let mut out = String::from_str("(");
        out.append(self.operator.as_str());
        let rs = self.right.string();
        out.append(rs.as_str());
        out.append(")");
        proof {
            lemma_render_literals();
            assert(out@ =~= render_expr(ExprModel::Prefix(self@)));
        }
        out
    }
}

impl Node for PrefixExpression {
    fn token_literal(&self) -> String {
        self.token_literal()
    }

    fn string(&self) -> String {
        self.string()
    }
}

impl Expression for PrefixExpression {
    fn expression_node(&self) {
    }
}

impl InfixExpression {
    /// The literal of the operator's token.
    pub fn token_literal(&self) -> (r: String)
        ensures
            r@ == self@.token.literal,
    {
        self.token.literal.clone()
    }

    /// An infix node renders parenthesized: left operand, a spaced
    /// operator, right operand.
    pub fn string(&self) -> (r: String)
        ensures
            r@ == render_expr(ExprModel::Infix(self@)),
        decreases *self,
    {
        let mut out = String::from_str("(");
        let ls = self.left.string();
        out.append(ls.as_str());
        out.append(" ");
        out.append(self.operator.as_str());
        out.append(" ");
        let rs = self.right.string();
        out.append(rs.as_str());
        out.append(")");
        proof {
            lemma_render_literals();
            assert(out@ =~= render_expr(ExprModel::Infix(self@)));
        }
        out
    }
}

impl Node for InfixExpression {
    fn token_literal(&self) -> String {
        self.token_literal()
    }

    fn string(&self) -> String {
        self.string()
    }
}

impl Expression for InfixExpression {
    fn expression_node(&self) {
    }
}

impl IfExpression {
    /// The literal of the `if` token.
    pub fn token_literal(&self) -> (r: String)
        ensures
            r@ == self@.token.literal,
    {
        self.token.literal.clone()
    }

    /// A conditional renders as `if`, the condition, a space, the
    /// consequence, and `else ` with the alternative when there is one.
    pub fn string(&self) -> (r: String)
        ensures
            r@ == render_expr(ExprModel::If(self@)),
        decreases *self,
    {
        let mut out = String::from_str("if");
        let cs = self.condition.string();
        out.append(cs.as_str());
        out.append(" ");
        let bs = self.consequence.string();
        out.append(bs.as_str());
        match &self.alternative {
            Some(alternative) => {
                out.append("else ");
                let als = alternative.string();
                out.append(als.as_str());
            },
            None => {},
        }
        proof {
            lemma_render_literals();
            let m = if_model(*self);
            assert(cs@ == render_expr(*m.condition));
            assert(bs@ == render_block(m.consequence));
            assert(render_expr(ExprModel::If(m)) == seq!['i', 'f'] + render_expr(*m.condition)
                + seq![' '] + render_block(m.consequence) + render_alternative(m.alternative));
            assert(out@ =~= render_expr(ExprModel::If(self@)));
        }
        out
    }
}

impl Node for IfExpression {
    fn token_literal(&self) -> String {
        self.token_literal()
    }

    fn string(&self) -> String {
        self.string()
    }
}

impl ExpressionVariants {
    /// The literal of the expression's introducing token.
    pub fn token_literal(&self) -> (r: String)
        ensures
            r@ == expr_token_literal(self@),
    {
        match self {
            ExpressionVariants::Ident(e) => e.token_literal(),
            ExpressionVariants::Integer(e) => e.token_literal(),
            ExpressionVariants::Prefix(e) => e.token_literal(),
            ExpressionVariants::Infix(e) => e.token_literal(),
            ExpressionVariants::Boolean(e) => e.token_literal(),
            ExpressionVariants::If(e) => e.token_literal(),
        }
    }

    /// The canonical rendering of the expression.
    pub fn string(&self) -> (r: String)
        ensures
            r@ == render_expr(self@),
        decreases *self,
    {
        match self {
            ExpressionVariants::Ident(e) => e.string(),
            ExpressionVariants::Integer(e) => e.string(),
            ExpressionVariants::Prefix(e) => e.string(),
            ExpressionVariants::Infix(e) => e.string(),
            ExpressionVariants::Boolean(e) => e.string(),
            ExpressionVariants::If(e) => e.string(),
        }
    }
}

impl Node for ExpressionVariants {
    fn token_literal(&self) -> String {
        self.token_literal()
    }

    fn string(&self) -> String {
        self.string()
    }
}

impl BlockStatement {
    /// The literal of the block's introducing token.
    pub fn token_literal(&self) -> (r: String)
        ensures
            r@ == self@.token.literal,
    {
        self.token.literal.clone()
    }

    /// A block renders as the concatenation of its statements' renderings.
    pub fn string(&self) -> (r: String)
        ensures
            r@ == render_stmts_from(self@.statements, 0),
        decreases *self,
    {
        let mut out = String::new();
        let ghost models = self@.statements;
        proof {
            lemma_stmts_model_from(self.statements@, 0);
        }
        let mut i: usize = 0;
        while i < self.statements.len()
            invariant
                i <= self.statements.len(),
                models == self@.statements,
                models.len() == self.statements@.len(),
                forall|j: int| 0 <= j < models.len() ==> models[j] == stmt_model(
                    self.statements@[j],
                ),
                out@ + render_stmts_from(models, i as int) == render_stmts_from(models, 0),
            decreases self.statements.len() - i,
        {
            let s = self.statements[i].string();
            out.append(s.as_str());
            i = i + 1;
            proof {
                assert(out@ + render_stmts_from(models, i as int) =~= render_stmts_from(
                    models,
                    0,
                ));
            }
        }
        proof {
            assert(out@ =~= out@ + render_stmts_from(models, models.len() as int));
        }
        out
    }
}

impl Node for BlockStatement {
    fn token_literal(&self) -> String {
        self.token_literal()
    }

    fn string(&self) -> String {
        self.string()
    }
}

impl LetStatement {
    /// The literal of the `let` token.
    pub fn token_literal(&self) -> (r: String)
        ensures
            r@ == self.token@.literal,
    {
        self.token.literal.clone()
    }

    /// A `let` statement renders as its keyword, the bound name, ` = `, the
    /// value's rendering, and a closing semicolon.
    pub fn string(&self) -> (r: String)
        ensures
            r@ == render_stmt(self@),
        decreases *self,
    {
        let mut out = self.token.literal.clone();
        out.append(" ");
        let ns = self.name.string();
        out.append(ns.as_str());
        out.append(" = ");
        match &self.value {
            Some(value) => {
                let vs = value.string();
                out.append(vs.as_str());
            },
            None => {},
        }
        out.append(";");
        proof {
            lemma_render_literals();
            assert(out@ =~= render_stmt(self@));
        }
        out
    }
}

impl Node for LetStatement {
    fn token_literal(&self) -> String {
        self.token_literal()
    }

    fn string(&self) -> String {
        self.string()
    }
}

impl Statement for LetStatement {
    fn statement_node(&self) {
    }
}

impl ReturnStatement {
    /// The literal of the `return` token.
    pub fn token_literal(&self) -> (r: String)
        ensures
            r@ == self.token@.literal,
    {
        self.token.literal.clone()
    }

    /// A `return` statement renders as its keyword, a space, the value's
    /// rendering, and a closing semicolon.
    pub fn string(&self) -> (r: String)
        ensures
            r@ == render_stmt(self@),
        decreases *self,
    {
        let mut out = self.token.literal.clone();
        out.append(" ");
        match &self.return_value {
            Some(value) => {
                let vs = value.string();
                out.append(vs.as_str());
            },
            None => {},
        }
        out.append(";");
        proof {
            lemma_render_literals();
            assert(out@ =~= render_stmt(self@));
        }
        out
    }
}

impl Node for ReturnStatement {
    fn token_literal(&self) -> String {
        self.token_literal()
    }

    fn string(&self) -> String {
        self.string()
    }
}

impl Statement for ReturnStatement {
    fn statement_node(&self) {
    }
}

impl ExpressionStatement {
    /// The literal of the statement's introducing token.
    pub fn token_literal(&self) -> (r: String)
        ensures
            r@ == self.token@.literal,
    {
        self.token.literal.clone()
    }

    /// An expression statement renders as its expression alone, or as
    /// nothing while the expression is absent.
    pub fn string(&self) -> (r: String)
        ensures
            r@ == render_stmt(self@),
        decreases *self,
    {
        match &self.expression {
            Some(exp) => exp.string(),
            None => String::new(),
        }
    }
}

impl Node for ExpressionStatement {
    fn token_literal(&self) -> String {
        self.token_literal()
    }

    fn string(&self) -> String {
        self.string()
    }
}

impl Statement for ExpressionStatement {
    fn statement_node(&self) {
    }
}

impl StatementVariant {
    /// The literal of the statement's introducing token.
    pub fn token_literal(&self) -> (r: String)
        ensures
            r@ == stmt_token_literal(self@),
    {
        match self {
            StatementVariant::Let(s) => s.token_literal(),
            StatementVariant::Return(s) => s.token_literal(),
            StatementVariant::Expression(s) => s.token_literal(),
        }
    }

    /// The canonical rendering of the statement.
    pub fn string(&self) -> (r: String)
        ensures
            r@ == render_stmt(self@),
        decreases *self,
    {
        match self {
            StatementVariant::Let(s) => s.string(),
            StatementVariant::Return(s) => s.string(),
            StatementVariant::Expression(s) => s.string(),
        }
    }
}

impl Node for StatementVariant {
    fn token_literal(&self) -> String {
        self.token_literal()
    }

    fn string(&self) -> String {
        self.string()
    }
}

impl Program {
    /// The literal of the first statement's introducing token, or a single
    /// space for an empty program.
    pub fn token_literal(&self) -> (r: String)
        ensures
            r@ == if self@.len() > 0 {
                stmt_token_literal(self@[0])
            } else {
                seq![' ']
            },
    {
        proof {
            lemma_stmts_model_from(self.statements@, 0);
        }
        if self.statements.len() > 0 {
            self.statements[0].token_literal()
        } else {
            let r = " ".to_owned();
            proof {
                lemma_render_literals();
            }
            r
        }
    }

    /// A program renders as the concatenation of its statements'
    /// renderings, with no separators.
    pub fn string(&self) -> (r: String)
        ensures
            r@ == render_stmts_from(self@, 0),
    {
        let mut out = String::new();
        let ghost models = self@;
        proof {
            lemma_stmts_model_from(self.statements@, 0);
        }
        let mut i: usize = 0;
        while i < self.statements.len()
            invariant
                i <= self.statements.len(),
                models == self@,
                models.len() == self.statements@.len(),
                forall|j: int| 0 <= j < models.len() ==> models[j] == stmt_model(
                    self.statements@[j],
                ),
                out@ + render_stmts_from(models, i as int) == render_stmts_from(models, 0),
            decreases self.statements.len() - i,
        {
            let s = self.statements[i].string();
            out.append(s.as_str());
            i = i + 1;
            proof {
                assert(out@ + render_stmts_from(models, i as int) =~= render_stmts_from(
                    models,
                    0,
                ));
            }
        }
        proof {
            assert(out@ =~= out@ + render_stmts_from(models, models.len() as int));
        }
        out
    }
}

impl Node for Program {
    fn token_literal(&self) -> String {
        self.token_literal()
    }

    fn string(&self) -> String {
        self.string()
    }
}

impl Clone for Identifier {
    /// A cloned identifier equals the original.
    fn clone(&self) -> (r: Self)
        ensures
            r == *self,
    {
        Identifier { token: self.token.clone(), value: self.value.clone() }
    }
}

impl Clone for IntegerLiteral {
    /// A cloned integer literal equals the original.
    fn clone(&self) -> (r: Self)
        ensures
            r == *self,
    {
        IntegerLiteral { token: self.token.clone(), value: self.value }
    }
}

impl Clone for Boolean {
    /// A cloned boolean literal equals the original.
    fn clone(&self) -> (r: Self)
        ensures
            r == *self,
    {
        Boolean { token: self.token.clone(), value: self.value }
    }
}

impl Clone for PrefixExpression {
    /// A cloned prefix node has the same mathematical value.
    fn clone(&self) -> (r: Self)
        ensures
            r@ == self@,
        decreases *self,
    {
        PrefixExpression {
            token: self.token.clone(),
            operator: self.operator.clone(),
            right: Box::new((*self.right).clone()),
        }
    }
}

impl Clone for InfixExpression {
    /// A cloned infix node has the same mathematical value.
    fn clone(&self) -> (r: Self)
        ensures
            r@ == self@,
        decreases *self,
    {
        InfixExpression {
            token: self.token.clone(),
            left: Box::new((*self.left).clone()),
            operator: self.operator.clone(),
            right: Box::new((*self.right).clone()),
        }
    }
}

impl Clone for IfExpression {
    /// A cloned conditional node has the same mathematical value.
    fn clone(&self) -> (r: Self)
        ensures
            r@ == self@,
        decreases *self,
    {
        IfExpression {
            token: self.token.clone(),
            condition: Box::new((*self.condition).clone()),
            consequence: self.consequence.clone(),
            alternative: match &self.alternative {
                Some(b) => Some(b.clone()),
                None => None,
            },
        }
    }
}

impl Clone for ExpressionVariants {
    /// A cloned expression has the same mathematical value.
    fn clone(&self) -> (r: Self)
        ensures
            r@ == self@,
        decreases *self,
    {
        match self {
            ExpressionVariants::Ident(e) => ExpressionVariants::Ident(e.clone()),
            ExpressionVariants::Integer(e) => ExpressionVariants::Integer(e.clone()),
            ExpressionVariants::Prefix(e) => ExpressionVariants::Prefix(e.clone()),
            ExpressionVariants::Infix(e) => ExpressionVariants::Infix(e.clone()),
            ExpressionVariants::Boolean(e) => ExpressionVariants::Boolean(e.clone()),
            ExpressionVariants::If(e) => ExpressionVariants::If(e.clone()),
        }
    }
}

impl Clone for BlockStatement {
    /// A cloned block has the same mathematical value.
    fn clone(&self) -> (r: Self)
        ensures
            r@ == self@,
        decreases *self,
    {
        let ghost original = *self;
        let mut statements: Vec<StatementVariant> = Vec::new();
        let mut i: usize = 0;
        while i < self.statements.len()
            invariant
                i <= self.statements.len(),
                original == *self,
                statements@.len() == i,
                forall|j: int| 0 <= j < i ==> stmt_model(#[trigger] statements@[j]) == stmt_model(
                    self.statements@[j],
                ),
            decreases self.statements.len() - i,
        {
            statements.push(self.statements[i].clone());
            i = i + 1;
        }
        let r = BlockStatement { token: self.token.clone(), statements };
        proof {
            lemma_stmts_model_from(r.statements@, 0);
            lemma_stmts_model_from(self.statements@, 0);
            assert(r@.statements =~= self@.statements);
        }
        r
    }
}

impl Clone for LetStatement {
    /// A cloned `let` statement has the same mathematical value.
    fn clone(&self) -> (r: Self)
        ensures
            r@ == self@,
        decreases *self,
    {
        LetStatement {
            token: self.token.clone(),
            name: self.name.clone(),
            value: match &self.value {
                Some(v) => Some(v.clone()),
                None => None,
            },
        }
    }
}

impl Clone for ReturnStatement {
    /// A cloned `return` statement has the same mathematical value.
    fn clone(&self) -> (r: Self)
        ensures
            r@ == self@,
        decreases *self,
    {
        ReturnStatement {
            token: self.token.clone(),
            return_value: match &self.return_value {
                Some(v) => Some(v.clone()),
                None => None,
            },
        }
    }
}

impl Clone for ExpressionStatement {
    /// A cloned expression statement has the same mathematical value.
    fn clone(&self) -> (r: Self)
        ensures
            r@ == self@,
        decreases *self,
    {
        ExpressionStatement {
            token: self.token.clone(),
            expression: match &self.expression {
                Some(v) => Some(v.clone()),
                None => None,
            },
        }
    }
}

impl Clone for StatementVariant {
    /// A cloned statement has the same mathematical value.
    fn clone(&self) -> (r: Self)
        ensures
            r@ == self@,
        decreases *self,
    {
        match self {
            StatementVariant::Let(s) => StatementVariant::Let(s.clone()),
            StatementVariant::Return(s) => StatementVariant::Return(s.clone()),
            StatementVariant::Expression(s) => StatementVariant::Expression(s.clone()),
        }
    }
}

} // verus!
