use vstd::prelude::*;

use crate::token::{Token, TokenType, TokenView};

verus! {

/// A runtime value. A number is held as the decimal text of a 64-bit float;
/// what the float operations give is left to the caller (see `NumericOp`).
#[derive(Debug, PartialEq)]
pub enum Object {
    Number(String),
    String(String),
    Boolean(bool),
    Nil,
}

/// A runtime value, with its texts as character sequences.
pub enum ObjectView {
    Number(Seq<char>),
    Str(Seq<char>),
    Boolean(bool),
    Nil,
}

impl View for Object {
    type V = ObjectView;

    open spec fn view(&self) -> ObjectView {
        match self {
            Object::Number(n) => ObjectView::Number(n@),
            Object::String(s) => ObjectView::Str(s@),
            Object::Boolean(b) => ObjectView::Boolean(*b),
            Object::Nil => ObjectView::Nil,
        }
    }
}

impl Object {
    pub fn copy(&self) -> (r: Object)
        ensures
            r == *self,
    {
        match self {
            Object::Number(n) => Object::Number(n.clone()),
            Object::String(s) => Object::String(s.clone()),
            Object::Boolean(b) => Object::Boolean(*b),
            Object::Nil => Object::Nil,
        }
    }
}

#[derive(Debug, PartialEq)]
pub enum Expr {
    Binary(Box<Expr>, Token, Box<Expr>),
    Grouping(Box<Expr>),
    Literal(Object),
    Unary(Token, Box<Expr>),
}

impl Expr {
    pub fn copy(&self) -> (r: Expr)
        ensures
            r == *self,
        decreases self,
    {
        match self {
            Expr::Binary(l, op, r) => Expr::Binary(Box::new(l.copy()), op.copy(), Box::new(r.copy())),
            Expr::Grouping(e) => Expr::Grouping(Box::new(e.copy())),
            Expr::Literal(o) => Expr::Literal(o.copy()),
            Expr::Unary(op, e) => Expr::Unary(op.copy(), Box::new(e.copy())),
        }
    }
}

/// An expression tree, with tokens and values seen through their views.
pub enum ExprView {
    Binary(Box<ExprView>, TokenView, Box<ExprView>),
    Grouping(Box<ExprView>),
    Literal(ObjectView),
    Unary(TokenView, Box<ExprView>),
}

pub open spec fn expr_view(e: Expr) -> ExprView
    decreases e,
{
    match e {
        Expr::Binary(l, op, r) => ExprView::Binary(
            Box::new(expr_view(*l)),
            op@,
            Box::new(expr_view(*r)),
        ),
        Expr::Grouping(inner) => ExprView::Grouping(Box::new(expr_view(*inner))),
        Expr::Literal(o) => ExprView::Literal(o@),
        Expr::Unary(op, operand) => ExprView::Unary(op@, Box::new(expr_view(*operand))),
    }
}

impl View for Expr {
    type V = ExprView;

    open spec fn view(&self) -> ExprView {
        expr_view(*self)
    }
}

pub enum StmtView {
    Expression(ExprView),
    Print(ExprView),
}

#[derive(Debug, PartialEq)]
pub enum Stmt {
    Expression(Box<Expr>),
    Print(Box<Expr>),
}

impl View for Stmt {
    type V = StmtView;

    open spec fn view(&self) -> StmtView {
        match self {
            Stmt::Expression(e) => StmtView::Expression(e.view()),
            Stmt::Print(e) => StmtView::Print(e.view()),
        }
    }
}

impl Stmt {
    pub fn is_print(&self) -> (r: bool)
        ensures
            r == (self is Print),
    {
        match self {
            Stmt::Print(_) => true,
            Stmt::Expression(_) => false,
        }
    }

    pub open spec fn expr(&self) -> Expr {
        match self {
            Stmt::Print(e) => **e,
            Stmt::Expression(e) => **e,
        }
    }
}

/// The float operations that evaluation asks of its caller, on the decimal
/// texts of two numbers (`Negate` takes the number twice). Comparisons answer
/// with a `Boolean`, the others with a `Number`.
#[derive(Clone, Copy, Debug, PartialEq, Eq, Structural)]
pub enum NumericOp {
    Add,
    Subtract,
    Multiply,
    Divide,
    Greater,
    GreaterEqual,
    Less,
    LessEqual,
    Equal,
    NotEqual,
    Negate,
}

/// Nil and false are falsy; every other value is truthy.
pub open spec fn truthy(v: ObjectView) -> bool {
    match v {
        ObjectView::Nil => false,
        ObjectView::Boolean(b) => b,
        _ => true,
    }
}

/// The float operation of a binary operator on two numbers, if it has one.
pub open spec fn numeric_op(op: TokenType) -> Option<NumericOp> {
    match op {
        TokenType::Plus => Some(NumericOp::Add),
        TokenType::Minus => Some(NumericOp::Subtract),
        TokenType::Star => Some(NumericOp::Multiply),
        TokenType::Slash => Some(NumericOp::Divide),
        TokenType::Greater => Some(NumericOp::Greater),
        TokenType::GreaterEqual => Some(NumericOp::GreaterEqual),
        TokenType::Less => Some(NumericOp::Less),
        TokenType::LessEqual => Some(NumericOp::LessEqual),
        TokenType::EqualEqual => Some(NumericOp::Equal),
        TokenType::BangEqual => Some(NumericOp::NotEqual),
        _ => None,
    }
}

/// Equality of two values that are not both numbers: equal shape and equal
/// contents.
pub open spec fn same_value(a: ObjectView, b: ObjectView) -> bool {
    match (a, b) {
        (ObjectView::Str(x), ObjectView::Str(y)) => x == y,
        (ObjectView::Boolean(x), ObjectView::Boolean(y)) => x == y,
        (ObjectView::Nil, ObjectView::Nil) => true,
        _ => false,
    }
}

/// A binary operator applied to two values, with `num` for the float
/// operations; `None` where the operator does not apply to the operands.
pub open spec fn binary_value(
    a: ObjectView,
    op: TokenType,
    b: ObjectView,
    num: spec_fn(NumericOp, Seq<char>, Seq<char>) -> ObjectView,
) -> Option<ObjectView> {
    match (a, b) {
        (ObjectView::Number(x), ObjectView::Number(y)) => match numeric_op(op) {
            Some(n) => Some(num(n, x, y)),
            None => None,
        },
        _ => if op == TokenType::EqualEqual {
            Some(ObjectView::Boolean(same_value(a, b)))
        } else if op == TokenType::BangEqual {
            Some(ObjectView::Boolean(!same_value(a, b)))
        } else {
            match (a, b) {
                (ObjectView::Str(x), ObjectView::Str(y)) => if op == TokenType::Plus {
                    Some(ObjectView::Str(x + y))
                } else {
                    None
                },
                _ => None,
            }
        },
    }
}

/// What evaluating `e` gives, with `num` for the float operations: a value,
/// or the sub-expression on which evaluation failed.
pub open spec fn eval_spec(
    e: Expr,
    num: spec_fn(NumericOp, Seq<char>, Seq<char>) -> ObjectView,
) -> Result<ObjectView, Expr>
    decreases e,
{
    match e {
        Expr::Literal(o) => Ok(o@),
        Expr::Grouping(inner) => eval_spec(*inner, num),
        Expr::Unary(op, operand) => match eval_spec(*operand, num) {
            Err(x) => Err(x),
            Ok(v) => if op.token_type == TokenType::Bang {
                Ok(ObjectView::Boolean(!truthy(v)))
            } else if op.token_type == TokenType::Minus {
                match v {
                    ObjectView::Number(n) => Ok(num(NumericOp::Negate, n, n)),
                    _ => Err(*operand),
                }
            } else {
                Err(*operand)
            },
        },
        Expr::Binary(l, op, r) => match eval_spec(*l, num) {
            Err(x) => Err(x),
            Ok(a) => match eval_spec(*r, num) {
                Err(x) => Err(x),
                Ok(b) => match binary_value(a, op.token_type, b, num) {
                    Some(v) => Ok(v),
                    None => Err(e),
                },
            },
        },
    }
}

/// Whether `x` is `e` or a node inside it.
pub open spec fn is_subexpression(x: Expr, e: Expr) -> bool
    decreases e,
{
    x == e || match e {
        Expr::Binary(l, _, r) => is_subexpression(x, *l) || is_subexpression(x, *r),
        Expr::Grouping(inner) => is_subexpression(x, *inner),
        Expr::Unary(_, operand) => is_subexpression(x, *operand),
        Expr::Literal(_) => false,
    }
}

/// Evaluation fails only with a node of the expression it evaluated, whatever
/// the float operations give.
pub proof fn lemma_error_is_subexpression(
    e: Expr,
    num: spec_fn(NumericOp, Seq<char>, Seq<char>) -> ObjectView,
)
    ensures
        eval_spec(e, num) is Err ==> is_subexpression(eval_spec(e, num)->Err_0, e),
    decreases e,
{
    match e {
        Expr::Binary(l, op, r) => {
            lemma_error_is_subexpression(*l, num);
            lemma_error_is_subexpression(*r, num);
        },
        Expr::Grouping(inner) => {
            lemma_error_is_subexpression(*inner, num);
        },
        Expr::Unary(_, operand) => {
            lemma_error_is_subexpression(*operand, num);
            assert(is_subexpression(*operand, *operand));
        },
        Expr::Literal(_) => {},
    }
}

/// The outcome of an evaluation, with the value seen through its view.
pub open spec fn outcome(r: Result<Object, Expr>) -> Result<ObjectView, Expr> {
    match r {
        Ok(v) => Ok(v@),
        Err(e) => Err(e),
    }
}

/// `num` answers every float operation as `spec_num` says.
pub open spec fn computes<F: Fn(NumericOp, &String, &String) -> Object>(
    num: F,
    spec_num: spec_fn(NumericOp, Seq<char>, Seq<char>) -> ObjectView,
) -> bool {
    forall|op: NumericOp, a: &String, b: &String, r: Object|
        #[trigger] num.ensures((op, a, b), r) ==> r@ == spec_num(op, a@, b@)
}

pub fn is_truthy(obj: &Object) -> (r: bool)
    ensures
        r == truthy(obj@),
{
    match obj {
        Object::Nil => false,
        Object::Boolean(b) => *b,
        _ => true,
    }
}

fn numeric_op_of(op: TokenType) -> (r: Option<NumericOp>)
    ensures
        r == numeric_op(op),
{
    match op {
        TokenType::Plus => Some(NumericOp::Add),
        TokenType::Minus => Some(NumericOp::Subtract),
        TokenType::Star => Some(NumericOp::Multiply),
        TokenType::Slash => Some(NumericOp::Divide),
        TokenType::Greater => Some(NumericOp::Greater),
        TokenType::GreaterEqual => Some(NumericOp::GreaterEqual),
        TokenType::Less => Some(NumericOp::Less),
        TokenType::LessEqual => Some(NumericOp::LessEqual),
        TokenType::EqualEqual => Some(NumericOp::Equal),
        TokenType::BangEqual => Some(NumericOp::NotEqual),
        _ => None,
    }
}

fn same_object(a: &Object, b: &Object) -> (r: bool)
    ensures
        r == same_value(a@, b@),
{
    match (a, b) {
        (Object::String(x), Object::String(y)) => x.eq(y),
        (Object::Boolean(x), Object::Boolean(y)) => *x == *y,
        (Object::Nil, Object::Nil) => true,
        _ => false,
    }
}

fn eval_binary<F: Fn(NumericOp, &String, &String) -> Object>(
    a: &Object,
    op: TokenType,
    b: &Object,
    num: &F,
) -> (r: Option<Object>)
    requires
        forall|o: NumericOp, x: &String, y: &String| num.requires((o, x, y)),
    ensures
        forall|sf: spec_fn(NumericOp, Seq<char>, Seq<char>) -> ObjectView| #[trigger]
            computes(*num, sf) ==> match binary_value(a@, op, b@, sf) {
                Some(v) => r is Some && r->0@ == v,
                None => r is None,
            },
{
    match (a, b) {
        (Object::Number(x), Object::Number(y)) => match numeric_op_of(op) {
            Some(n) => {
                let v = num(n, x, y);
                Some(v)
            },
            None => None,
        },
        _ => {
            if op == TokenType::EqualEqual {
                Some(Object::Boolean(same_object(a, b)))
            } else if op == TokenType::BangEqual {
                Some(Object::Boolean(!same_object(a, b)))
            } else {
                match (a, b) {
                    (Object::String(x), Object::String(y)) => {
                        if op == TokenType::Plus {
                            let mut s = x.clone();
                            s.append(y.as_str());
                            Some(Object::String(s))
                        } else {
                            None
                        }
                    },
                    _ => None,
                }
            }
        },
    }
}

/// Evaluates `expr`, with `num` for the float operations. On failure the
/// result is the sub-expression whose operands did not fit its operator.
pub fn eval<F: Fn(NumericOp, &String, &String) -> Object>(expr: &Expr, num: &F) -> (r: Result<
    Object,
    Expr,
>)
    requires
        forall|o: NumericOp, x: &String, y: &String| num.requires((o, x, y)),
    ensures
        forall|sf: spec_fn(NumericOp, Seq<char>, Seq<char>) -> ObjectView| #[trigger]
            computes(*num, sf) ==> outcome(r) == eval_spec(*expr, sf),
        r is Err ==> is_subexpression(r->Err_0, *expr),
    decreases expr,
{
    match expr {
        Expr::Literal(o) => Ok(o.copy()),
        Expr::Grouping(inner) => eval(inner, num),
        Expr::Unary(op, operand) => {
            let v = eval(operand, num);
            match v {
                Err(x) => Err(x),
                Ok(v) => {
                    if op.token_type == TokenType::Bang {
                        Ok(Object::Boolean(!is_truthy(&v)))
                    } else if op.token_type == TokenType::Minus {
                        match &v {
                            Object::Number(n) => Ok(num(NumericOp::Negate, n, n)),
                            _ => {
                                assert(is_subexpression(**operand, **operand));
                                Err(operand.copy())
                            },
                        }
                    } else {
                        assert(is_subexpression(**operand, **operand));
                        Err(operand.copy())
                    }
                },
            }
        },
        Expr::Binary(l, op, r) => {
            let a = eval(l, num);
            match a {
                Err(x) => Err(x),
                Ok(a) => {
                    let b = eval(r, num);
                    match b {
                        Err(x) => Err(x),
                        Ok(b) => match eval_binary(&a, op.token_type, &b, num) {
                            Some(v) => Ok(v),
                            None => Err(expr.copy()),
                        },
                    }
                },
            }
        },
    }
}

/// Evaluates the expression of `stmt`; printing the value of a print
/// statement is left to the caller.
pub fn eval_stmt<F: Fn(NumericOp, &String, &String) -> Object>(stmt: &Stmt, num: &F) -> (r: Result<
    Object,
    Expr,
>)
    requires
        forall|o: NumericOp, x: &String, y: &String| num.requires((o, x, y)),
    ensures
        forall|sf: spec_fn(NumericOp, Seq<char>, Seq<char>) -> ObjectView| #[trigger]
            computes(*num, sf) ==> outcome(r) == eval_spec(stmt.expr(), sf),
        r is Err ==> is_subexpression(r->Err_0, stmt.expr()),
{
    match stmt {
        Stmt::Print(e) => eval(e, num),
        Stmt::Expression(e) => eval(e, num),
    }
}

/// How a value is shown: a number by its text, a string by its characters.
pub open spec fn object_text(v: ObjectView) -> Seq<char> {
    match v {
        ObjectView::Number(t) => t,
        ObjectView::Str(s) => s,
        ObjectView::Boolean(b) => if b {
            "true"@
        } else {
            "false"@
        },
        ObjectView::Nil => "nil"@,
    }
}

/// An expression written out with every operation in parentheses, the
/// operator first.
pub open spec fn printed(e: ExprView) -> Seq<char>
    decreases e,
{
    match e {
        ExprView::Binary(l, op, r) => "("@ + op.lexeme + " "@ + printed(*l) + " "@ + printed(*r)
            + ")"@,
        ExprView::Grouping(inner) => "(group "@ + printed(*inner) + ")"@,
        ExprView::Literal(o) => object_text(o),
        ExprView::Unary(op, operand) => "("@ + op.lexeme + " "@ + printed(*operand) + ")"@,
    }
}

/// The text of a value, as a print statement shows it.
pub fn text_of(obj: &Object) -> (r: String)
    ensures
        r@ == object_text(obj@),
{
    match obj {
        Object::Number(t) => t.clone(),
        Object::String(s) => s.clone(),
        Object::Boolean(b) => if *b {
            "true".to_string()
        } else {
            "false".to_string()
        },
        Object::Nil => "nil".to_string(),
    }
}

fn write_expr(out: &mut String, expr: &Expr)
    ensures
        final(out)@ == old(out)@ + printed(expr@),
    decreases expr,
{
    match expr {
        Expr::Binary(l, op, r) => {
            out.append("(");
            out.append(op.lexeme.as_str());
            out.append(" ");
            write_expr(out, l);
            out.append(" ");
            write_expr(out, r);
            out.append(")");
            assert(out@ =~= old(out)@ + printed(expr@));
        },
        Expr::Grouping(inner) => {
            out.append("(group ");
            write_expr(out, inner);
            out.append(")");
            assert(out@ =~= old(out)@ + printed(expr@));
        },
        Expr::Literal(o) => {
            let text = text_of(o);
            out.append(text.as_str());
        },
        Expr::Unary(op, operand) => {
            out.append("(");
            out.append(op.lexeme.as_str());
            out.append(" ");
            write_expr(out, operand);
            out.append(")");
            assert(out@ =~= old(out)@ + printed(expr@));
        },
    }
}

/// `expr` written out with every operation in parentheses.
pub fn visit(expr: &Expr) -> (r: String)
    ensures
        r@ == printed(expr@),
{
    let mut out = String::new();
    write_expr(&mut out, expr);
    assert(out@ =~= printed(expr@));
    out
}

} // verus!
