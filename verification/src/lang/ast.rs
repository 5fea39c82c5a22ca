use vstd::prelude::*;
use vstd::std_specs::cmp::PartialEqSpecImpl;

verus! {

#[derive(Debug, Clone)]
pub enum MoveDirection {
    MoveForward,
    TurnLeft,
    TurnRight,
}

#[derive(PartialEq, Eq, Structural, Clone, Copy, Debug)]
pub enum Operator {
    Assign,
    Add,
    Subtract,
    Multiply,
    Divide,
    Equal,
    NotEqual,
    GreaterThan,
    GreaterEqualThan,
    LessThan,
    LessEqualThan,
}

/// An expression, with the range of token positions it was parsed from.
///
/// A literal keeps the numeral as it was written; its numeric value is the
/// decimal number that the numeral denotes.
#[derive(Debug)]
pub enum Expr {
    Literal { value: String, index_from: usize, index_to: usize },
    Parenthesis { expr: Box<Expr>, index_from: usize, index_to: usize },
    Variable { identifier: String, index_from: usize, index_to: usize },
    Call { function: String, args: Vec<Expr>, index_from: usize, index_to: usize },
    Binary {
        left_hand_side: Box<Expr>,
        right_hand_side: Box<Expr>,
        operator: Operator,
        index_from: usize,
        index_to: usize,
    },
}

/// The mathematical model of an [`Expr`]; text is given by its UTF-8 bytes.
pub ghost enum ExprView {
    Literal { value: Seq<u8>, index_from: int, index_to: int },
    Parenthesis { expr: Box<ExprView>, index_from: int, index_to: int },
    Variable { identifier: Seq<u8>, index_from: int, index_to: int },
    Call { function: Seq<u8>, args: Seq<ExprView>, index_from: int, index_to: int },
    Binary {
        left_hand_side: Box<ExprView>,
        right_hand_side: Box<ExprView>,
        operator: Operator,
        index_from: int,
        index_to: int,
    },
}

/// The UTF-8 bytes of a string.
pub open spec fn string_bytes(s: String) -> Seq<u8> {
    vstd::utf8::encode_utf8(s@)
}

impl Expr {
    pub open spec fn view_of(self) -> ExprView
        decreases self,
    {
        match self {
            Expr::Literal { value, index_from, index_to } => ExprView::Literal {
                value: string_bytes(value),
                index_from: index_from as int,
                index_to: index_to as int,
            },
            Expr::Parenthesis { expr, index_from, index_to } => ExprView::Parenthesis {
                expr: Box::new((*expr).view_of()),
                index_from: index_from as int,
                index_to: index_to as int,
            },
            Expr::Variable { identifier, index_from, index_to } => ExprView::Variable {
                identifier: string_bytes(identifier),
                index_from: index_from as int,
                index_to: index_to as int,
            },
            Expr::Call { function, args, index_from, index_to } => ExprView::Call {
                function: string_bytes(function),
                args: Expr::views_of(args@),
                index_from: index_from as int,
                index_to: index_to as int,
            },
            Expr::Binary { left_hand_side, right_hand_side, operator, index_from, index_to } =>
                ExprView::Binary {
                left_hand_side: Box::new((*left_hand_side).view_of()),
                right_hand_side: Box::new((*right_hand_side).view_of()),
                operator,
                index_from: index_from as int,
                index_to: index_to as int,
            },
        }
    }

    pub open spec fn views_of(exprs: Seq<Expr>) -> Seq<ExprView>
        decreases exprs,
    {
        if exprs.len() == 0 {
            Seq::empty()
        } else {
            seq![exprs[0].view_of()] + Expr::views_of(exprs.drop_first())
        }
    }
}

impl View for Expr {
    type V = ExprView;

    open spec fn view(&self) -> ExprView {
        self.view_of()
    }
}

impl ExprView {
    pub open spec fn index_from(self) -> int {
        match self {
            ExprView::Literal { index_from, .. } => index_from,
            ExprView::Parenthesis { index_from, .. } => index_from,
            ExprView::Variable { index_from, .. } => index_from,
            ExprView::Call { index_from, .. } => index_from,
            ExprView::Binary { index_from, .. } => index_from,
        }
    }

    pub open spec fn index_to(self) -> int {
        match self {
            ExprView::Literal { index_to, .. } => index_to,
            ExprView::Parenthesis { index_to, .. } => index_to,
            ExprView::Variable { index_to, .. } => index_to,
            ExprView::Call { index_to, .. } => index_to,
            ExprView::Binary { index_to, .. } => index_to,
        }
    }
}

impl Expr {
    /// The position of the first token of the expression.
    pub fn index_from(&self) -> (i: usize)
        ensures
            i == self@.index_from(),
    {
        match self {
            Expr::Literal { index_from, .. } => *index_from,
            Expr::Parenthesis { index_from, .. } => *index_from,
            Expr::Variable { index_from, .. } => *index_from,
            Expr::Call { index_from, .. } => *index_from,
            Expr::Binary { index_from, .. } => *index_from,
        }
    }

    /// The position just after the last token of the expression.
    pub fn index_to(&self) -> (i: usize)
        ensures
            i == self@.index_to(),
    {
        match self {
            Expr::Literal { index_to, .. } => *index_to,
            Expr::Parenthesis { index_to, .. } => *index_to,
            Expr::Variable { index_to, .. } => *index_to,
            Expr::Call { index_to, .. } => *index_to,
            Expr::Binary { index_to, .. } => *index_to,
        }
    }
}

/// The models of a sequence of expressions have the same length and are the
/// models of its elements.
pub proof fn lemma_views_of(exprs: Seq<Expr>)
    ensures
        Expr::views_of(exprs).len() == exprs.len(),
        forall|i: int| 0 <= i < exprs.len() ==> Expr::views_of(exprs)[i] == #[trigger] exprs[i]@,
    decreases exprs.len(),
{
    if exprs.len() > 0 {
        lemma_views_of(exprs.drop_first());
        assert forall|i: int| 0 <= i < exprs.len() implies Expr::views_of(exprs)[i] == #[trigger] exprs[i]@ by {
            if i > 0 {
                assert(exprs.drop_first()[i - 1] == exprs[i]);
            }
        }
    }
}

fn strings_equal(a: &String, b: &String) -> (equal: bool)
    ensures
        equal == (string_bytes(*a) == string_bytes(*b)),
{
    proof {
        vstd::utf8::encode_utf8_decode_utf8(a@);
        vstd::utf8::encode_utf8_decode_utf8(b@);
    }
    *a == *b
}

fn exprs_equal(x: &Expr, y: &Expr) -> (equal: bool)
    ensures
        equal == (x@ == y@),
    decreases x,
{
    match (x, y) {
        (
            Expr::Literal { value: a, index_from: f1, index_to: t1 },
            Expr::Literal { value: b, index_from: f2, index_to: t2 },
        ) => strings_equal(a, b) && *f1 == *f2 && *t1 == *t2,
        (
            Expr::Parenthesis { expr: a, index_from: f1, index_to: t1 },
            Expr::Parenthesis { expr: b, index_from: f2, index_to: t2 },
        ) => exprs_equal(a, b) && *f1 == *f2 && *t1 == *t2,
        (
            Expr::Variable { identifier: a, index_from: f1, index_to: t1 },
            Expr::Variable { identifier: b, index_from: f2, index_to: t2 },
        ) => strings_equal(a, b) && *f1 == *f2 && *t1 == *t2,
        (
            Expr::Call { function: a, args: xs, index_from: f1, index_to: t1 },
            Expr::Call { function: b, args: ys, index_from: f2, index_to: t2 },
        ) => strings_equal(a, b) && expr_lists_equal(xs, ys) && *f1 == *f2 && *t1 == *t2,
        (
            Expr::Binary {
                left_hand_side: l1,
                right_hand_side: r1,
                operator: o1,
                index_from: f1,
                index_to: t1,
            },
            Expr::Binary {
                left_hand_side: l2,
                right_hand_side: r2,
                operator: o2,
                index_from: f2,
                index_to: t2,
            },
        ) => exprs_equal(l1, l2) && exprs_equal(r1, r2) && *o1 == *o2 && *f1 == *f2 && *t1 == *t2,
        _ => false,
    }
}

fn expr_lists_equal(xs: &Vec<Expr>, ys: &Vec<Expr>) -> (equal: bool)
    ensures
        equal == (Expr::views_of(xs@) == Expr::views_of(ys@)),
    decreases xs,
{
    proof {
        lemma_views_of(xs@);
        lemma_views_of(ys@);
    }
    if xs.len() != ys.len() {
        return false;
    }
    let mut i: usize = 0;
    while i < xs.len()
        invariant
            xs@.len() == ys@.len(),
            i <= xs@.len(),
            Expr::views_of(xs@).len() == xs@.len(),
            Expr::views_of(ys@).len() == ys@.len(),
            forall|j: int| 0 <= j < xs@.len() ==> Expr::views_of(xs@)[j] == #[trigger] xs@[j]@,
            forall|j: int| 0 <= j < ys@.len() ==> Expr::views_of(ys@)[j] == #[trigger] ys@[j]@,
            forall|j: int| 0 <= j < i ==> xs@[j]@ == ys@[j]@,
        decreases xs@.len() - i,
    {
        if !exprs_equal(&xs[i], &ys[i]) {
            assert(Expr::views_of(xs@)[i as int] != Expr::views_of(ys@)[i as int]);
            return false;
        }
        i = i + 1;
    }
    assert forall|j: int| 0 <= j < xs@.len() implies Expr::views_of(xs@)[j] == Expr::views_of(ys@)[j] by {
        assert(xs@[j]@ == ys@[j]@);
    }
    assert(Expr::views_of(xs@) =~= Expr::views_of(ys@));
    true
}

fn clone_expr(e: &Expr) -> (res: Expr)
    ensures
        res@ == e@,
    decreases e,
{
    match e {
        Expr::Literal { value, index_from, index_to } => Expr::Literal {
            value: value.clone(),
            index_from: *index_from,
            index_to: *index_to,
        },
        Expr::Parenthesis { expr, index_from, index_to } => Expr::Parenthesis {
            expr: Box::new(clone_expr(expr)),
            index_from: *index_from,
            index_to: *index_to,
        },
        Expr::Variable { identifier, index_from, index_to } => Expr::Variable {
            identifier: identifier.clone(),
            index_from: *index_from,
            index_to: *index_to,
        },
        Expr::Call { function, args, index_from, index_to } => Expr::Call {
            function: function.clone(),
            args: clone_exprs(args),
            index_from: *index_from,
            index_to: *index_to,
        },
        Expr::Binary { left_hand_side, right_hand_side, operator, index_from, index_to } => Expr::Binary {
            left_hand_side: Box::new(clone_expr(left_hand_side)),
            right_hand_side: Box::new(clone_expr(right_hand_side)),
            operator: *operator,
            index_from: *index_from,
            index_to: *index_to,
        },
    }
}

fn clone_exprs(xs: &Vec<Expr>) -> (res: Vec<Expr>)
    ensures
        Expr::views_of(res@) == Expr::views_of(xs@),
    decreases xs,
{
    let mut res: Vec<Expr> = Vec::new();
    let mut i: usize = 0;
    proof {
        lemma_views_of(xs@);
    }
    while i < xs.len()
        invariant
            i <= xs@.len(),
            res@.len() == i,
            Expr::views_of(xs@).len() == xs@.len(),
            forall|j: int| 0 <= j < xs@.len() ==> Expr::views_of(xs@)[j] == #[trigger] xs@[j]@,
            forall|j: int| 0 <= j < i ==> #[trigger] res@[j]@ == xs@[j]@,
        decreases xs@.len() - i,
    {
        res.push(clone_expr(&xs[i]));
        i = i + 1;
    }
    proof {
        lemma_views_of(res@);
        assert forall|j: int| 0 <= j < xs@.len() implies Expr::views_of(res@)[j] == Expr::views_of(xs@)[j] by {
            assert(res@[j]@ == xs@[j]@);
        }
        assert(Expr::views_of(res@) =~= Expr::views_of(xs@));
    }
    res
}

impl Clone for Expr {
    fn clone(&self) -> (res: Self)
        ensures
            res@ == self@,
    {
        clone_expr(self)
    }
}

impl PartialEq for Expr {
    fn eq(&self, other: &Self) -> (equal: bool) {
        exprs_equal(self, other)
    }
}

impl PartialEqSpecImpl for Expr {
    open spec fn obeys_eq_spec() -> bool {
        true
    }

    open spec fn eq_spec(&self, other: &Self) -> bool {
        self@ == other@
    }
}

#[derive(Debug)]
#[allow(inconsistent_fields)]
pub enum Stmt {
    If {
        condition: Expr,
        body: Box<Stmt>,
        alternate: Option<Box<Stmt>>,
        index_from: usize,
        index_to: usize,
    },
    Move { argument: Expr, direction: MoveDirection, index_from: usize, index_to: usize },
    Block { body: Vec<Stmt>, index_from: usize, index_to: usize },
    Expression { expr: Expr, index_from: usize, index_to: usize },
}

#[derive(Debug, Clone)]
pub struct Param {
    pub name: String,
    pub index_from: usize,
    pub index_to: usize,
}

#[derive(Debug)]
pub enum Cons {
    Func { name: String, parameters: Vec<Param>, body: Stmt, index_from: usize, index_to: usize },
    Statement { stmt: Stmt, index_from: usize, index_to: usize },
}

pub type Program = Vec<Cons>;

/// The mathematical model of a [`Param`].
pub ghost struct ParamView {
    pub name: Seq<u8>,
    pub index_from: int,
    pub index_to: int,
}

impl View for Param {
    type V = ParamView;

    open spec fn view(&self) -> ParamView {
        ParamView {
            name: string_bytes(self.name),
            index_from: self.index_from as int,
            index_to: self.index_to as int,
        }
    }
}

/// The models of a sequence of parameters.
pub open spec fn params_view(params: Seq<Param>) -> Seq<ParamView> {
    params.map_values(|p: Param| p@)
}

/// The mathematical model of a [`Stmt`].
pub ghost enum StmtView {
    If {
        condition: ExprView,
        body: Box<StmtView>,
        alternate: Option<Box<StmtView>>,
        index_from: int,
        index_to: int,
    },
    Move { argument: ExprView, direction: MoveDirection, index_from: int, index_to: int },
    Block { body: Seq<StmtView>, index_from: int, index_to: int },
    Expression { expr: ExprView, index_from: int, index_to: int },
}

impl StmtView {
    pub open spec fn index_from(self) -> int {
        match self {
            StmtView::If { index_from, .. } => index_from,
            StmtView::Move { index_from, .. } => index_from,
            StmtView::Block { index_from, .. } => index_from,
            StmtView::Expression { index_from, .. } => index_from,
        }
    }

    pub open spec fn index_to(self) -> int {
        match self {
            StmtView::If { index_to, .. } => index_to,
            StmtView::Move { index_to, .. } => index_to,
            StmtView::Block { index_to, .. } => index_to,
            StmtView::Expression { index_to, .. } => index_to,
        }
    }
}

impl Stmt {
    pub open spec fn view_of(self) -> StmtView
        decreases self,
    {
        match self {
            Stmt::If { condition, body, alternate, index_from, index_to } => StmtView::If {
                condition: condition@,
                body: Box::new((*body).view_of()),
                alternate: match alternate {
                    Some(b) => Some(Box::new((*b).view_of())),
                    None => None,
                },
                index_from: index_from as int,
                index_to: index_to as int,
            },
            Stmt::Move { argument, direction, index_from, index_to } => StmtView::Move {
                argument: argument@,
                direction,
                index_from: index_from as int,
                index_to: index_to as int,
            },
            Stmt::Block { body, index_from, index_to } => StmtView::Block {
                body: Stmt::views_of(body@),
                index_from: index_from as int,
                index_to: index_to as int,
            },
            Stmt::Expression { expr, index_from, index_to } => StmtView::Expression {
                expr: expr@,
                index_from: index_from as int,
                index_to: index_to as int,
            },
        }
    }

    pub open spec fn views_of(stmts: Seq<Stmt>) -> Seq<StmtView>
        decreases stmts,
    {
        if stmts.len() == 0 {
            Seq::empty()
        } else {
            seq![stmts[0].view_of()] + Stmt::views_of(stmts.drop_first())
        }
    }
}

impl View for Stmt {
    type V = StmtView;

    open spec fn view(&self) -> StmtView {
        self.view_of()
    }
}

fn clone_direction(d: &MoveDirection) -> (res: MoveDirection)
    ensures
        res == *d,
{
    match d {
        MoveDirection::MoveForward => MoveDirection::MoveForward,
        MoveDirection::TurnLeft => MoveDirection::TurnLeft,
        MoveDirection::TurnRight => MoveDirection::TurnRight,
    }
}

proof fn lemma_stmt_views_of(stmts: Seq<Stmt>)
    ensures
        Stmt::views_of(stmts).len() == stmts.len(),
        forall|i: int| 0 <= i < stmts.len() ==> Stmt::views_of(stmts)[i] == #[trigger] stmts[i]@,
    decreases stmts.len(),
{
    if stmts.len() > 0 {
        lemma_stmt_views_of(stmts.drop_first());
        assert forall|i: int| 0 <= i < stmts.len() implies Stmt::views_of(stmts)[i] == #[trigger] stmts[i]@ by {
            if i > 0 {
                assert(stmts.drop_first()[i - 1] == stmts[i]);
            }
        }
    }
}

fn clone_stmt(s: &Stmt) -> (res: Stmt)
    ensures
        res@ == s@,
    decreases s,
{
    match s {
        Stmt::If { condition, body, alternate, index_from, index_to } => Stmt::If {
            condition: clone_expr(condition),
            body: Box::new(clone_stmt(body)),
            alternate: match alternate {
                Some(b) => Some(Box::new(clone_stmt(b))),
                None => None,
            },
            index_from: *index_from,
            index_to: *index_to,
        },
        Stmt::Move { argument, direction, index_from, index_to } => Stmt::Move {
            argument: clone_expr(argument),
            direction: clone_direction(direction),
            index_from: *index_from,
            index_to: *index_to,
        },
        Stmt::Block { body, index_from, index_to } => Stmt::Block {
            body: clone_stmts(body),
            index_from: *index_from,
            index_to: *index_to,
        },
        Stmt::Expression { expr, index_from, index_to } => Stmt::Expression {
            expr: clone_expr(expr),
            index_from: *index_from,
            index_to: *index_to,
        },
    }
}

fn clone_stmts(xs: &Vec<Stmt>) -> (res: Vec<Stmt>)
    ensures
        Stmt::views_of(res@) == Stmt::views_of(xs@),
    decreases xs,
{
    let mut res: Vec<Stmt> = Vec::new();
    let mut i: usize = 0;
    while i < xs.len()
        invariant
            i <= xs@.len(),
            res@.len() == i,
            forall|j: int| 0 <= j < i ==> #[trigger] res@[j]@ == xs@[j]@,
        decreases xs@.len() - i,
    {
        res.push(clone_stmt(&xs[i]));
        i = i + 1;
    }
    proof {
        lemma_stmt_views_of(res@);
        lemma_stmt_views_of(xs@);
        assert forall|j: int| 0 <= j < xs@.len() implies Stmt::views_of(res@)[j] == Stmt::views_of(xs@)[j] by {
            assert(res@[j]@ == xs@[j]@);
        }
        assert(Stmt::views_of(res@) =~= Stmt::views_of(xs@));
    }
    res
}

impl Clone for Stmt {
    fn clone(&self) -> (res: Self)
        ensures
            res@ == self@,
    {
        clone_stmt(self)
    }
}

fn clone_params(xs: &Vec<Param>) -> (res: Vec<Param>)
    ensures
        params_view(res@) == params_view(xs@),
{
    let mut res: Vec<Param> = Vec::new();
    let mut i: usize = 0;
    while i < xs.len()
        invariant
            i <= xs@.len(),
            res@.len() == i,
            forall|j: int| 0 <= j < i ==> #[trigger] res@[j]@ == xs@[j]@,
        decreases xs@.len() - i,
    {
        let p = &xs[i];
        res.push(Param { name: p.name.clone(), index_from: p.index_from, index_to: p.index_to });
        i = i + 1;
    }
    assert(params_view(res@) =~= params_view(xs@));
    res
}

impl Clone for Cons {
    /// A copy with the same names, parameters, statements and positions.
    fn clone(&self) -> (res: Self)
        ensures
            match (res, *self) {
                (
                    Cons::Func { name: n1, parameters: p1, body: b1, index_from: f1, index_to: t1 },
                    Cons::Func { name: n2, parameters: p2, body: b2, index_from: f2, index_to: t2 },
                ) => n1 == n2 && params_view(p1@) == params_view(p2@) && b1@ == b2@ && f1 == f2 && t1 == t2,
                (
                    Cons::Statement { stmt: s1, index_from: f1, index_to: t1 },
                    Cons::Statement { stmt: s2, index_from: f2, index_to: t2 },
                ) => s1@ == s2@ && f1 == f2 && t1 == t2,
                _ => false,
            },
    {
        match self {
            Cons::Func { name, parameters, body, index_from, index_to } => Cons::Func {
                name: name.clone(),
                parameters: clone_params(parameters),
                body: clone_stmt(body),
                index_from: *index_from,
                index_to: *index_to,
            },
            Cons::Statement { stmt, index_from, index_to } => Cons::Statement {
                stmt: clone_stmt(stmt),
                index_from: *index_from,
                index_to: *index_to,
            },
        }
    }
}

pub proof fn lemma_stmt_views_of_push(s: Seq<Stmt>, e: Stmt)
    ensures
        Stmt::views_of(s.push(e)) == Stmt::views_of(s).push(e@),
    decreases s.len(),
{
    if s.len() == 0 {
        assert(s.push(e).drop_first() =~= Seq::<Stmt>::empty());
        assert(Stmt::views_of(Seq::<Stmt>::empty()) =~= Seq::<StmtView>::empty());
        assert(Stmt::views_of(s.push(e)) =~= seq![e@]);
    } else {
        lemma_stmt_views_of_push(s.drop_first(), e);
        assert(s.push(e).drop_first() =~= s.drop_first().push(e));
        assert(Stmt::views_of(s.push(e)) =~= Stmt::views_of(s).push(e@));
    }
}

} // verus!
