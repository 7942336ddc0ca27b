use vstd::prelude::*;

use crate::text::{push_int, spec_int_text};

verus! {

/// A whole program: a list of statements.
#[derive(Debug, PartialEq, Eq)]
pub struct Program {
    pub stms: Vec<Statement>,
}

#[derive(Debug, PartialEq, Eq)]
pub enum Statement {
    Decl(DeclStatement),
    Assign(AssignStatement),
    If(IfStatement),
    While(WhileStatement),
}

/// `i32 name = init;`
#[derive(Debug, PartialEq, Eq)]
pub struct DeclStatement {
    pub name: String,
    pub init: Expression,
}

/// `name = value;`
#[derive(Debug, PartialEq, Eq)]
pub struct AssignStatement {
    pub name: String,
    pub value: Expression,
}

/// `if (cond) { ... }`, optionally followed by `else { ... }`
#[derive(Debug, PartialEq, Eq)]
pub struct IfStatement {
    pub cond: Expression,
    pub then_block: Block,
    pub else_block: Option<Block>,
}

/// `while (cond) { ... }`
#[derive(Debug, PartialEq, Eq)]
pub struct WhileStatement {
    pub cond: Expression,
    pub body: Block,
}

/// `{ ... }`
#[derive(Debug, PartialEq, Eq)]
pub struct Block {
    pub stms: Vec<Statement>,
}

#[derive(Debug, PartialEq, Eq)]
pub enum Expression {
    Identifier { name: String },
    Integer { value: i64 },
    Binary { oper: BinaryOperator, left: Box<Expression>, right: Box<Expression> },
}

#[derive(Debug, Clone, Copy, PartialEq, Eq, Structural)]
pub enum BinaryOperator {
    Equal,
    Less,
    Add,
    Mul,
}

/// The mathematical value of an expression.
pub enum ExprView {
    Identifier(Seq<char>),
    Integer(i64),
    Binary(BinaryOperator, Box<ExprView>, Box<ExprView>),
}

/// The mathematical value of a statement; blocks are sequences of statements.
pub enum StmView {
    Decl(Seq<char>, ExprView),
    Assign(Seq<char>, ExprView),
    If(ExprView, Seq<StmView>, Option<Seq<StmView>>),
    While(ExprView, Seq<StmView>),
}

pub open spec fn expr_view(e: Expression) -> ExprView
    decreases e,
{
    match e {
        Expression::Identifier { name } => ExprView::Identifier(name@),
        Expression::Integer { value } => ExprView::Integer(value),
        Expression::Binary { oper, left, right } => ExprView::Binary(
            oper,
            Box::new(expr_view(*left)),
            Box::new(expr_view(*right)),
        ),
    }
}

pub open spec fn stm_view(s: Statement) -> StmView
    decreases s, 1nat,
{
    match s {
        Statement::Decl(d) => StmView::Decl(d.name@, expr_view(d.init)),
        Statement::Assign(a) => StmView::Assign(a.name@, expr_view(a.value)),
        Statement::If(i) => StmView::If(
            expr_view(i.cond),
            stms_view(i.then_block.stms@),
            match i.else_block {
                Some(b) => Some(stms_view(b.stms@)),
                None => None,
            },
        ),
        Statement::While(w) => StmView::While(expr_view(w.cond), stms_view(w.body.stms@)),
    }
}

pub open spec fn stms_view(v: Seq<Statement>) -> Seq<StmView>
    decreases v, 0nat,
{
    if v.len() == 0 {
        Seq::empty()
    } else {
        stms_view(v.drop_last()).push(stm_view(v.last()))
    }
}

impl View for Expression {
    type V = ExprView;

    open spec fn view(&self) -> ExprView {
        expr_view(*self)
    }
}

impl View for Statement {
    type V = StmView;

    open spec fn view(&self) -> StmView {
        stm_view(*self)
    }
}

impl View for Block {
    type V = Seq<StmView>;

    open spec fn view(&self) -> Seq<StmView> {
        stms_view(self.stms@)
    }
}

impl View for Program {
    type V = Seq<StmView>;

    open spec fn view(&self) -> Seq<StmView> {
        stms_view(self.stms@)
    }
}

impl BinaryOperator {
    pub open spec fn spec_label(self) -> Seq<char> {
        match self {
            BinaryOperator::Equal => "Equal"@,
            BinaryOperator::Less => "Less"@,
            BinaryOperator::Add => "Add"@,
            BinaryOperator::Mul => "Mul"@,
        }
    }

    /// The node label of the operator in the printed tree.
    fn label(self) -> (r: &'static str)
        ensures
            r@ == self.spec_label(),
    {
        match self {
            BinaryOperator::Equal => "Equal",
            BinaryOperator::Less => "Less",
            BinaryOperator::Add => "Add",
            BinaryOperator::Mul => "Mul",
        }
    }
}

/// The connector drawn before a node: the last child of its parent gets a corner.
pub open spec fn connector(is_last: bool) -> Seq<char> {
    if is_last {
        "└── "@
    } else {
        "├── "@
    }
}

/// The prefix under a node for its children: a vertical bar continues while
/// the node has later siblings.
pub open spec fn child_prefix(prefix: Seq<char>, is_last: bool) -> Seq<char> {
    if is_last {
        prefix + "    "@
    } else {
        prefix + "│   "@
    }
}

pub open spec fn tree_line(prefix: Seq<char>, is_last: bool, text: Seq<char>) -> Seq<char> {
    prefix + connector(is_last) + text
}

/// The lines of an expression subtree, in pre-order.
pub open spec fn expr_lines(e: ExprView, prefix: Seq<char>, is_last: bool) -> Seq<Seq<char>>
    decreases e,
{
    match e {
        ExprView::Identifier(name) => seq![
            tree_line(prefix, is_last, "Identifier("@ + name + ")"@),
        ],
        ExprView::Integer(value) => seq![
            tree_line(prefix, is_last, "Integer("@ + spec_int_text(value as int) + ")"@),
        ],
        ExprView::Binary(oper, left, right) => {
            let p = child_prefix(prefix, is_last);
            seq![tree_line(prefix, is_last, oper.spec_label())] + expr_lines(*left, p, false)
                + expr_lines(*right, p, true)
        },
    }
}

/// The lines of a statement subtree, in pre-order.
pub open spec fn stm_lines(s: StmView, prefix: Seq<char>, is_last: bool) -> Seq<Seq<char>>
    decreases s, 1nat,
{
    let p = child_prefix(prefix, is_last);
    match s {
        StmView::Decl(name, init) => seq![
            tree_line(prefix, is_last, "DeclStatement("@ + name + ")"@),
        ] + expr_lines(init, p, true),
        StmView::Assign(name, value) => seq![
            tree_line(prefix, is_last, "AssignStatement("@ + name + ")"@),
        ] + expr_lines(value, p, true),
        StmView::If(cond, then_block, else_block) => seq![
            tree_line(prefix, is_last, "IfStatement"@),
        ] + seq![tree_line(p, false, "Condition"@)] + expr_lines(cond, child_prefix(p, false), true)
            + seq![tree_line(p, else_block is None, "ThenBlock"@)] + block_lines(
            then_block,
            child_prefix(p, else_block is None),
        ) + match else_block {
            Some(b) => seq![tree_line(p, true, "ElseBlock"@)] + block_lines(
                b,
                child_prefix(p, true),
            ),
            None => Seq::empty(),
        },
        StmView::While(cond, body) => seq![tree_line(prefix, is_last, "WhileStatement"@)] + seq![
            tree_line(p, false, "Condition"@),
        ] + expr_lines(cond, child_prefix(p, false), true) + seq![tree_line(p, true, "Body"@)]
            + block_lines(body, child_prefix(p, true)),
    }
}

/// The lines of a block's statements; an empty block shows `Empty`.
pub open spec fn block_lines(b: Seq<StmView>, prefix: Seq<char>) -> Seq<Seq<char>>
    decreases b, 1nat,
{
    if b.len() == 0 {
        seq![prefix + "└── Empty"@]
    } else {
        stms_lines(b, prefix)
    }
}

/// The lines of a list of statements, the final one drawn as the last child.
pub open spec fn stms_lines(v: Seq<StmView>, prefix: Seq<char>) -> Seq<Seq<char>>
    decreases v, 0nat,
{
    if v.len() == 0 {
        Seq::empty()
    } else {
        stms_lines_before(v.drop_last(), prefix) + stm_lines(v.last(), prefix, true)
    }
}

/// The lines of statements that all have a later sibling.
pub open spec fn stms_lines_before(v: Seq<StmView>, prefix: Seq<char>) -> Seq<Seq<char>>
    decreases v, 0nat,
{
    if v.len() == 0 {
        Seq::empty()
    } else {
        stms_lines_before(v.drop_last(), prefix) + stm_lines(v.last(), prefix, false)
    }
}

/// The lines of a list of statements, each drawn as the last child when `i`
/// is the final index: the lines the printer emits for `v`.
pub open spec fn stms_lines_upto(v: Seq<StmView>, prefix: Seq<char>, i: int) -> Seq<Seq<char>> {
    if i < v.len() {
        stms_lines_before(v.take(i), prefix)
    } else {
        stms_lines(v, prefix)
    }
}

/// `lines` joined with `sep` between consecutive lines.
pub open spec fn join_lines(lines: Seq<Seq<char>>, sep: Seq<char>) -> Seq<char>
    decreases lines.len(),
{
    if lines.len() == 0 {
        Seq::empty()
    } else if lines.len() == 1 {
        lines[0]
    } else {
        join_lines(lines.drop_last(), sep) + sep + lines.last()
    }
}

/// The pre-order tree of a program: `Program`, then its statements.
pub open spec fn program_text(p: Seq<StmView>) -> Seq<char> {
    join_lines(seq!["Program"@] + stms_lines(p, Seq::empty()), "\n"@)
}

pub open spec fn string_views(v: Seq<String>) -> Seq<Seq<char>> {
    v.map_values(|s: String| s@)
}

/// Pushes `prefix`, the connector and `text` as one line, and gives the
/// prefix for the node's children.
fn push_tree_line(lines: &mut Vec<String>, prefix: &str, is_last: bool, text: &str) -> (r: String)
    ensures
        string_views(final(lines)@) == string_views(old(lines)@).push(
            tree_line(prefix@, is_last, text@),
        ),
        r@ == child_prefix(prefix@, is_last),
{
    let connector = if is_last {
        "└── "
    } else {
        "├── "
    };
    let mut line = String::from_str(prefix);
    line.append(connector);
    line.append(text);
    lines.push(line);
    assert(string_views(lines@) =~= string_views(old(lines)@).push(
        tree_line(prefix@, is_last, text@),
    ));
    let mut p = String::from_str(prefix);
    if is_last {
        p.append("    ");
    } else {
        p.append("│   ");
    }
    p
}

/// `open` + `inner` + `close`.
fn wrap(open: &str, inner: &str, close: &str) -> (r: String)
    ensures
        r@ == open@ + inner@ + close@,
{
    let mut r = String::from_str(open);
    r.append(inner);
    r.append(close);
    r
}

impl Program {
    /// The program as a pre-order tree, one node per line.
    pub fn preorder_string(&self) -> (r: String)
        ensures
            r@ == program_text(self@),
    {
        let mut lines: Vec<String> = Vec::new();
        lines.push(String::from_str("Program"));
        let n = self.stms.len();
        let mut i: usize = 0;
        let empty = String::new();
        while i < n
            invariant
                n == self.stms@.len(),
                i <= n,
                empty@ == Seq::<char>::empty(),
                string_views(lines@) == seq!["Program"@] + stms_lines_upto(
                    stms_view(self.stms@),
                    Seq::empty(),
                    i as int,
                ),
            decreases n - i,
        {
            let ghost before = string_views(lines@);
            self.stms[i].push_preorder(&mut lines, empty.as_str(), i == n - 1);
            proof {
                lemma_stms_lines_step(self.stms@, Seq::empty(), i as int);
            }
            i = i + 1;
        }
        proof {
            lemma_stms_view(self.stms@);
        }
        join_with_newlines(&lines)
    }
}

proof fn lemma_stms_lines_before_children(v: Seq<StmView>, prefix: Seq<char>)
    ensures
        stms_lines_before(v, prefix) == Seq::new(
            v.len(),
            |i: int| stm_lines(v[i], prefix, false),
        ).flatten_alt(),
    decreases v.len(),
{
    if v.len() > 0 {
        lemma_stms_lines_before_children(v.drop_last(), prefix);
        let all = Seq::new(v.len(), |i: int| stm_lines(v[i], prefix, false));
        assert(all.drop_last() =~= Seq::new(
            v.drop_last().len(),
            |i: int| stm_lines(v.drop_last()[i], prefix, false),
        ));
    }
}

/// The statements of a list are printed one after the other, in order, each
/// as a child under `prefix`: every statement but the last is drawn with the
/// tee `├── ` (and a bar continuing under it), and only the last with the
/// corner `└── `.
pub proof fn lemma_stms_lines_children(v: Seq<StmView>, prefix: Seq<char>)
    ensures
        stms_lines(v, prefix) == Seq::new(
            v.len(),
            |i: int| stm_lines(v[i], prefix, i == v.len() - 1),
        ).flatten(),
{
    let all = Seq::new(v.len(), |i: int| stm_lines(v[i], prefix, i == v.len() - 1));
    all.lemma_flatten_and_flatten_alt_are_equivalent();
    if v.len() > 0 {
        lemma_stms_lines_before_children(v.drop_last(), prefix);
        assert(all.drop_last() =~= Seq::new(
            v.drop_last().len(),
            |i: int| stm_lines(v.drop_last()[i], prefix, false),
        ));
    } else {
        assert(all =~= Seq::<Seq<Seq<char>>>::empty());
    }
}

/// A block prints its statements as its children, in order, only the last
/// one drawn with the corner `└── `; an empty block prints `└── Empty`.
pub proof fn lemma_block_lines_children(b: Seq<StmView>, prefix: Seq<char>)
    ensures
        b.len() == 0 ==> block_lines(b, prefix) == seq![
            prefix + seq!['└', '─', '─', ' ', 'E', 'm', 'p', 't', 'y'],
        ],
        b.len() > 0 ==> block_lines(b, prefix) == Seq::new(
            b.len(),
            |i: int| stm_lines(b[i], prefix, i == b.len() - 1),
        ).flatten(),
{
    reveal_strlit("└── Empty");
    lemma_stms_lines_children(b, prefix);
    assert("└── Empty"@ =~= seq!['└', '─', '─', ' ', 'E', 'm', 'p', 't', 'y']);
}

/// Each node's line is its prefix, then the corner `└── ` when it is the
/// last child of its parent or the tee `├── ` otherwise; its children are
/// drawn under the prefix continued by four spaces or by `│   `.
pub proof fn lemma_tree_line_connectors(prefix: Seq<char>, is_last: bool, text: Seq<char>)
    ensures
        tree_line(prefix, is_last, text) == prefix + (if is_last {
            seq!['└', '─', '─', ' ']
        } else {
            seq!['├', '─', '─', ' ']
        }) + text,
        child_prefix(prefix, is_last) == prefix + (if is_last {
            seq![' ', ' ', ' ', ' ']
        } else {
            seq!['│', ' ', ' ', ' ']
        }),
{
    reveal_strlit("└── ");
    reveal_strlit("├── ");
    reveal_strlit("    ");
    reveal_strlit("│   ");
}

/// The text a printed expression node shows.
pub open spec fn expr_label(e: ExprView) -> Seq<char> {
    match e {
        ExprView::Identifier(name) => "Identifier("@ + name + ")"@,
        ExprView::Integer(value) => "Integer("@ + spec_int_text(value as int) + ")"@,
        ExprView::Binary(BinaryOperator::Equal, _, _) => "Equal"@,
        ExprView::Binary(BinaryOperator::Less, _, _) => "Less"@,
        ExprView::Binary(BinaryOperator::Add, _, _) => "Add"@,
        ExprView::Binary(BinaryOperator::Mul, _, _) => "Mul"@,
    }
}

/// An expression prints as its node line (prefix, connector, label) followed
/// by its operands in order: the left operand drawn with the tee `├── `, the
/// right one with the corner `└── `, both under the prefix continued below
/// the node.
pub proof fn lemma_expr_lines_shape(e: ExprView, prefix: Seq<char>, is_last: bool)
    ensures
        expr_lines(e, prefix, is_last).len() >= 1,
        expr_lines(e, prefix, is_last)[0] == prefix + (if is_last {
            "└── "@
        } else {
            "├── "@
        }) + expr_label(e),
        e matches ExprView::Binary(_, l, r) ==> {
            let below = prefix + (if is_last {
                "    "@
            } else {
                "│   "@
            });
            &&& expr_lines(e, prefix, is_last)[1] == below + "├── "@ + expr_label(*l)
            &&& expr_lines(e, prefix, is_last)[1 + expr_lines(*l, below, false).len() as int] == below
                + "└── "@ + expr_label(*r)
        },
    decreases e,
{
    if let ExprView::Binary(_, l, r) = e {
        let below = child_prefix(prefix, is_last);
        lemma_expr_lines_shape(*l, below, false);
        lemma_expr_lines_shape(*r, below, true);
    }
}

/// A statement prints as its node line (prefix, connector, and
/// `DeclStatement(name)`, `AssignStatement(name)`, `IfStatement` or
/// `WhileStatement`), and under it: the value of a declaration or
/// assignment as the only child; for `if` and `while`, `Condition` first
/// (with the tee), then `ThenBlock` (the corner unless an `ElseBlock`
/// follows) or `Body` (the corner), then `ElseBlock` last when there is one.
pub proof fn lemma_stm_lines_shape(s: StmView, prefix: Seq<char>, is_last: bool)
    ensures
        ({
            let lines = stm_lines(s, prefix, is_last);
            let head = prefix + (if is_last {
                "└── "@
            } else {
                "├── "@
            });
            let below = prefix + (if is_last {
                "    "@
            } else {
                "│   "@
            });
            &&& lines.len() >= 2
            &&& (s matches StmView::Decl(name, init) ==> lines[0] == head + "DeclStatement("@
                + name + ")"@ && lines[1] == below + "└── "@ + expr_label(init))
            &&& (s matches StmView::Assign(name, value) ==> lines[0] == head + "AssignStatement("@
                + name + ")"@ && lines[1] == below + "└── "@ + expr_label(value))
            &&& (s matches StmView::If(cond, then_block, else_block) ==> {
                let c = 2 + expr_lines(cond, below + "│   "@, true).len() as int;
                let t: int = c + 1 + block_lines(
                    then_block,
                    below + (if else_block is None {
                        "    "@
                    } else {
                        "│   "@
                    }),
                ).len();
                &&& lines[0] == head + "IfStatement"@
                &&& lines[1] == below + "├── Condition"@
                &&& lines[2] == below + "│   "@ + "└── "@ + expr_label(cond)
                &&& lines[c] == below + (if else_block is None {
                    "└── "@
                } else {
                    "├── "@
                }) + "ThenBlock"@
                &&& (else_block is Some ==> lines[t] == below + "└── "@ + "ElseBlock"@)
                &&& (else_block is None ==> lines.len() == t)
            })
            &&& (s matches StmView::While(cond, body) ==> {
                let c = 2 + expr_lines(cond, below + "│   "@, true).len() as int;
                &&& lines[0] == head + "WhileStatement"@
                &&& lines[1] == below + "├── Condition"@
                &&& lines[2] == below + "│   "@ + "└── "@ + expr_label(cond)
                &&& lines[c] == below + "└── Body"@
            })
        }),
{
    let below = child_prefix(prefix, is_last);
    match s {
        StmView::Decl(_, init) => {
            lemma_expr_lines_shape(init, below, true);
        },
        StmView::Assign(_, value) => {
            lemma_expr_lines_shape(value, below, true);
        },
        StmView::If(cond, _, _) => {
            lemma_expr_lines_shape(cond, child_prefix(below, false), true);
            reveal_strlit("├── ");
            reveal_strlit("└── ");
            reveal_strlit("Condition");
            reveal_strlit("├── Condition");
            reveal_strlit("ThenBlock");
            reveal_strlit("ElseBlock");
        },
        StmView::While(cond, _) => {
            lemma_expr_lines_shape(cond, child_prefix(below, false), true);
            reveal_strlit("├── ");
            reveal_strlit("└── ");
            reveal_strlit("Condition");
            reveal_strlit("├── Condition");
            reveal_strlit("Body");
            reveal_strlit("└── Body");
        },
    }
}

/// Adding statement `i` to the lines of the statements before it.
proof fn lemma_stms_lines_step(v: Seq<Statement>, prefix: Seq<char>, i: int)
    requires
        0 <= i < v.len(),
    ensures
        stms_lines_upto(stms_view(v), prefix, i) + stm_lines(
            stm_view(v[i]),
            prefix,
            i == v.len() - 1,
        ) == stms_lines_upto(stms_view(v), prefix, i + 1),
{
    lemma_stms_view(v);
    let w = stms_view(v);
    assert(w.take(i + 1).drop_last() =~= w.take(i));
    if i == v.len() - 1 {
        assert(w.take(i) =~= w.drop_last());
    }
}

/// The view of a statement list has one element per statement.
pub proof fn lemma_stms_view(v: Seq<Statement>)
    ensures
        stms_view(v).len() == v.len(),
        forall|k: int| 0 <= k < v.len() ==> #[trigger] stms_view(v)[k] == stm_view(v[k]),
    decreases v.len(),
{
    if v.len() > 0 {
        lemma_stms_view(v.drop_last());
    }
}

/// The lines joined by newlines.
pub fn join_with_newlines(lines: &Vec<String>) -> (r: String)
    ensures
        r@ == join_lines(string_views(lines@), "\n"@),
{
    let mut r = String::new();
    let n = lines.len();
    let mut i: usize = 0;
    while i < n
        invariant
            n == lines@.len(),
            i <= n,
            r@ == join_lines(string_views(lines@).take(i as int), "\n"@),
        decreases n - i,
    {
        let ghost v = string_views(lines@);
        assert(v.take(i + 1).drop_last() =~= v.take(i as int));
        if i > 0 {
            r.append("\n");
        }
        r.append(lines[i].as_str());
        i = i + 1;
        proof {
            if i == 1 {
                assert(v.take(1) =~= seq![v[0]]);
            }
        }
    }
    assert(string_views(lines@).take(n as int) =~= string_views(lines@));
    r
}

impl Statement {
    fn push_preorder(&self, lines: &mut Vec<String>, prefix: &str, is_last: bool)
        ensures
            string_views(final(lines)@) == string_views(old(lines)@) + stm_lines(
                self@,
                prefix@,
                is_last,
            ),
        decreases self,
    {
        match self {
            Statement::Decl(stm) => {
                let text = wrap("DeclStatement(", stm.name.as_str(), ")");
                let p = push_tree_line(lines, prefix, is_last, text.as_str());
                stm.init.push_preorder(lines, p.as_str(), true);
            },
            Statement::Assign(stm) => {
                let text = wrap("AssignStatement(", stm.name.as_str(), ")");
                let p = push_tree_line(lines, prefix, is_last, text.as_str());
                stm.value.push_preorder(lines, p.as_str(), true);
            },
            Statement::If(stm) => stm.push_preorder(lines, prefix, is_last),
            Statement::While(stm) => stm.push_preorder(lines, prefix, is_last),
        }
        assert(string_views(lines@) =~= string_views(old(lines)@) + stm_lines(
            self@,
            prefix@,
            is_last,
        ));
    }
}

impl IfStatement {
    fn push_preorder(&self, lines: &mut Vec<String>, prefix: &str, is_last: bool)
        ensures
            string_views(final(lines)@) == string_views(old(lines)@) + stm_lines(
                stm_view(Statement::If(*self)),
                prefix@,
                is_last,
            ),
        decreases self,
    {
        let ghost l0 = string_views(lines@);
        let p = push_tree_line(lines, prefix, is_last, "IfStatement");
        let has_else = self.else_block.is_some();
        // the condition always has a later sibling: the then-block
        let cond_p = push_tree_line(lines, p.as_str(), false, "Condition");
        self.cond.push_preorder(lines, cond_p.as_str(), true);
        // the then-block is last only without an else-block
        let then_p = push_tree_line(lines, p.as_str(), !has_else, "ThenBlock");
        self.then_block.push_preorder(lines, then_p.as_str());
        let ghost l1 = string_views(lines@);
        if let Some(block) = &self.else_block {
            let else_p = push_tree_line(lines, p.as_str(), true, "ElseBlock");
            block.push_preorder(lines, else_p.as_str());
        }
        proof {
            let s = stm_view(Statement::If(*self));
            let pp = child_prefix(prefix@, is_last);
            let head = seq![tree_line(prefix@, is_last, "IfStatement"@)] + seq![
                tree_line(pp, false, "Condition"@),
            ] + expr_lines(self.cond@, child_prefix(pp, false), true) + seq![
                tree_line(pp, self.else_block is None, "ThenBlock"@),
            ] + block_lines(self.then_block@, child_prefix(pp, self.else_block is None));
            assert(l1 =~= l0 + head);
            assert(string_views(lines@) =~= string_views(old(lines)@) + stm_lines(
                s,
                prefix@,
                is_last,
            ));
        }
    }
}

impl WhileStatement {
    fn push_preorder(&self, lines: &mut Vec<String>, prefix: &str, is_last: bool)
        ensures
            string_views(final(lines)@) == string_views(old(lines)@) + stm_lines(
                stm_view(Statement::While(*self)),
                prefix@,
                is_last,
            ),
        decreases self,
    {
        let p = push_tree_line(lines, prefix, is_last, "WhileStatement");
        // the condition always has a later sibling: the body
        let cond_p = push_tree_line(lines, p.as_str(), false, "Condition");
        self.cond.push_preorder(lines, cond_p.as_str(), true);
        let body_p = push_tree_line(lines, p.as_str(), true, "Body");
        self.body.push_preorder(lines, body_p.as_str());
        assert(string_views(lines@) =~= string_views(old(lines)@) + stm_lines(
            stm_view(Statement::While(*self)),
            prefix@,
            is_last,
        ));
    }
}

impl Block {
    fn push_preorder(&self, lines: &mut Vec<String>, prefix: &str)
        ensures
            string_views(final(lines)@) == string_views(old(lines)@) + block_lines(self@, prefix@),
        decreases self,
    {
        proof {
            lemma_stms_view(self.stms@);
        }
        if self.stms.len() == 0 {
            let mut line = String::from_str(prefix);
            line.append("└── Empty");
            lines.push(line);
            assert(string_views(lines@) =~= string_views(old(lines)@) + block_lines(
                self@,
                prefix@,
            ));
            return ;
        }
        let n = self.stms.len();
        let mut i: usize = 0;
        while i < n
            invariant
                n == self.stms@.len(),
                n > 0,
                i <= n,
                string_views(lines@) == string_views(old(lines)@) + stms_lines_upto(
                    stms_view(self.stms@),
                    prefix@,
                    i as int,
                ),
            decreases n - i,
        {
            self.stms[i].push_preorder(lines, prefix, i == n - 1);
            proof {
                lemma_stms_lines_step(self.stms@, prefix@, i as int);
            }
            i = i + 1;
        }
    }
}

impl Expression {
    fn push_preorder(&self, lines: &mut Vec<String>, prefix: &str, is_last: bool)
        ensures
            string_views(final(lines)@) == string_views(old(lines)@) + expr_lines(
                self@,
                prefix@,
                is_last,
            ),
        decreases self,
    {
        match self {
            Expression::Identifier { name } => {
                let text = wrap("Identifier(", name.as_str(), ")");
                push_tree_line(lines, prefix, is_last, text.as_str());
            },
            Expression::Integer { value } => {
                let mut digits = String::new();
                push_int(&mut digits, *value);
                let text = wrap("Integer(", digits.as_str(), ")");
                push_tree_line(lines, prefix, is_last, text.as_str());
            },
            Expression::Binary { oper, left, right } => {
                let p = push_tree_line(lines, prefix, is_last, oper.label());
                left.push_preorder(lines, p.as_str(), false);
                right.push_preorder(lines, p.as_str(), true);
            },
        }
        assert(string_views(lines@) =~= string_views(old(lines)@) + expr_lines(
            self@,
            prefix@,
            is_last,
        ));
    }
}

} // verus!
