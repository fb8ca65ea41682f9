//! Recursive-descent parsing of a token sequence into statements.
use vstd::prelude::*;
use crate::ast::{Expr, ExprView, Stmt, StmtView, Val, Value, body_of, exprs_view, stmts_view};
use crate::lexer::Token;

verus! {

/// The token at position `p`, if there is one.
pub open spec fn tok_at(tk: Seq<Token>, p: int) -> Option<Token> {
    if 0 <= p < tk.len() {
        Some(tk[p])
    } else {
        None
    }
}

/// The text at position `p`, empty past the end.
pub open spec fn text_at(tx: Seq<Seq<char>>, p: int) -> Seq<char> {
    if 0 <= p < tx.len() {
        tx[p]
    } else {
        seq![]
    }
}

/// How many tokens lie at or after position `p`.
pub open spec fn remaining(tk: Seq<Token>, p: int) -> nat {
    if p < tk.len() {
        (tk.len() - p) as nat
    } else {
        0
    }
}

/// The value of a decimal digit character.
pub open spec fn digit_value(c: char) -> int {
    if '0' <= c && c <= '9' {
        (c as u32) as int - ('0' as u32) as int
    } else {
        0
    }
}

/// The number that a string of decimal digits denotes.
pub open spec fn decimal_value(s: Seq<char>) -> int
    decreases s.len(),
{
    if s.len() == 0 {
        0
    } else {
        decimal_value(s.drop_last()) * 10 + digit_value(s.last())
    }
}

/// The value of a numeric literal: its decimal value, or 0 where that does
/// not fit in 64 signed bits.
pub open spec fn literal_number(s: Seq<char>) -> i64 {
    if decimal_value(s) <= i64::MAX {
        decimal_value(s) as i64
    } else {
        0
    }
}

/// The text of a quoted literal: its slice without the surrounding quotes.
pub open spec fn unquote(t: Seq<char>) -> Seq<char> {
    if t.len() >= 2 && t[0] == '"' && t[t.len() - 1] == '"' {
        t.subrange(1, t.len() - 1)
    } else {
        t
    }
}

/// The spelling of an additive operator token.
pub open spec fn add_op(t: Option<Token>) -> Option<Seq<char>> {
    match t {
        Some(Token::Plus) => Some("+"@),
        Some(Token::Minus) => Some("-"@),
        _ => None,
    }
}

/// The spelling of a multiplicative operator token.
pub open spec fn mul_op(t: Option<Token>) -> Option<Seq<char>> {
    match t {
        Some(Token::Star) => Some("*"@),
        Some(Token::Slash) => Some("/"@),
        Some(Token::Percent) => Some("%"@),
        _ => None,
    }
}

/// The literal 0, which stands in for an expression that is missing.
pub open spec fn zero() -> ExprView {
    ExprView::Lit(Val::Num(0))
}

/// A primary expression at `p`, and how many tokens it takes. A text
/// literal, or the name after `key-pressed`, is its slice without the quotes
/// (`unquote`); a leading `-` negates the primary that follows it.
pub open spec fn primary(tk: Seq<Token>, tx: Seq<Seq<char>>, p: int) -> (ExprView, nat)
    decreases remaining(tk, p), 0nat,
{
    match tok_at(tk, p) {
        Some(Token::Number) => (ExprView::Lit(Val::Num(literal_number(text_at(tx, p)))), 1),
        Some(Token::Text) => (ExprView::Lit(Val::Txt(unquote(text_at(tx, p)))), 1),
        Some(Token::Identifier) => (ExprView::Var(text_at(tx, p)), 1),
        Some(Token::KeyPressed) => if tok_at(tk, p + 1) == Some(Token::Text) {
            (ExprView::Key(unquote(text_at(tx, p + 1))), 2)
        } else {
            (zero(), 1)
        },
        Some(Token::Minus) => {
            let (e, n) = primary(tk, tx, p + 1);
            (ExprView::Bin(Box::new(zero()), "-"@, Box::new(e)), n + 1)
        },
        Some(Token::LParen) => {
            let (e, n) = sum(tk, tx, p + 1);
            if tok_at(tk, p + 1 + n) == Some(Token::RParen) {
                (e, n + 2)
            } else {
                (e, n + 1)
            }
        },
        Some(_) => (zero(), 1),
        None => (zero(), 0),
    }
}

/// The operands and multiplicative operators that follow `l` from `q` on,
/// folded to the left onto `l`.
pub open spec fn product_rest(tk: Seq<Token>, tx: Seq<Seq<char>>, l: ExprView, q: int) -> (
    ExprView,
    nat,
)
    decreases remaining(tk, q), 1nat,
{
    match mul_op(tok_at(tk, q)) {
        Some(op) => {
            let (r, n) = primary(tk, tx, q + 1);
            let (e, m) = product_rest(tk, tx, ExprView::Bin(Box::new(l), op, Box::new(r)), q + 1 + n);
            (e, 1 + n + m)
        },
        None => (l, 0),
    }
}

/// A product (`*`, `/`, `%`, left-associative) at `p`.
pub open spec fn product(tk: Seq<Token>, tx: Seq<Seq<char>>, p: int) -> (ExprView, nat)
    decreases remaining(tk, p), 2nat,
{
    let (l, n) = primary(tk, tx, p);
    let (e, m) = product_rest(tk, tx, l, p + n);
    (e, n + m)
}

/// The products and additive operators that follow `l` from `q` on, folded
/// to the left onto `l`.
pub open spec fn sum_rest(tk: Seq<Token>, tx: Seq<Seq<char>>, l: ExprView, q: int) -> (
    ExprView,
    nat,
)
    decreases remaining(tk, q), 3nat,
{
    match add_op(tok_at(tk, q)) {
        Some(op) => {
            let (r, n) = product(tk, tx, q + 1);
            let (e, m) = sum_rest(tk, tx, ExprView::Bin(Box::new(l), op, Box::new(r)), q + 1 + n);
            (e, 1 + n + m)
        },
        None => (l, 0),
    }
}

/// A full expression (`+`, `-` over products, left-associative) at `p`, and
/// how many tokens it takes.
pub open spec fn sum(tk: Seq<Token>, tx: Seq<Seq<char>>, p: int) -> (ExprView, nat)
    decreases remaining(tk, p), 4nat,
{
    let (l, n) = product(tk, tx, p);
    let (e, m) = sum_rest(tk, tx, l, p + n);
    (e, n + m)
}

/// Whether a token can start a further argument of `say`.
pub open spec fn starts_operand(t: Option<Token>) -> bool {
    t == Some(Token::Number) || t == Some(Token::Text) || t == Some(Token::LParen) || t == Some(
        Token::KeyPressed,
    )
}

/// The further arguments of `say` from `q` on: expressions that start with a
/// literal, a parenthesis or `key-pressed`. An identifier does not continue
/// the list, since a bare identifier always starts a statement.
pub open spec fn say_args(tk: Seq<Token>, tx: Seq<Seq<char>>, q: int) -> (Seq<ExprView>, nat)
    decreases remaining(tk, q),
{
    if starts_operand(tok_at(tk, q)) {
        let (e, n) = sum(tk, tx, q);
        if n > 0 {
            let (more, m) = say_args(tk, tx, q + n);
            (seq![e] + more, n + m)
        } else {
            (seq![], 0)
        }
    } else {
        (seq![], 0)
    }
}

/// Position `q`, moved past one token `t` if that is the token there.
pub open spec fn skip(tk: Seq<Token>, q: int, t: Token) -> int {
    if tok_at(tk, q) == Some(t) {
        q + 1
    } else {
        q
    }
}

/// A `make` statement whose keyword is at `p`: a name, then an optional
/// `be <expr>`, then an optional `do <block>`.
pub open spec fn make_stmt(tk: Seq<Token>, tx: Seq<Seq<char>>, p: int) -> Option<(StmtView, nat)>
    decreases remaining(tk, p), 0nat,
{
    if tok_at(tk, p + 1) == Some(Token::Identifier) {
        let has_value = tok_at(tk, p + 2) == Some(Token::Be);
        let value = sum(tk, tx, p + 3);
        let q = if has_value {
            p + 3 + value.1
        } else {
            p + 2
        };
        let has_body = tok_at(tk, q) == Some(Token::Do);
        let body = block(tk, tx, q + 1);
        let r = if has_body {
            q + 1 + body.1
        } else {
            q
        };
        Some(
            (
                StmtView::Make(
                    text_at(tx, p + 1),
                    if has_value {
                        Some(value.0)
                    } else {
                        None
                    },
                    if has_body {
                        body.0
                    } else {
                        seq![]
                    },
                ),
                (r - p - 1) as nat,
            ),
        )
    } else {
        None
    }
}

/// A `change` statement whose keyword is at `p`: a name, `to`, and an
/// expression.
pub open spec fn change_stmt(tk: Seq<Token>, tx: Seq<Seq<char>>, p: int) -> Option<(StmtView, nat)> {
    if tok_at(tk, p + 1) == Some(Token::Identifier) && tok_at(tk, p + 2) == Some(Token::To) {
        let (e, n) = sum(tk, tx, p + 3);
        Some((StmtView::Change(text_at(tx, p + 1), e), (n + 2) as nat))
    } else {
        None
    }
}

/// A `say` statement whose keyword is at `p`: one expression, then those
/// that `say_args` reads.
pub open spec fn say_stmt(tk: Seq<Token>, tx: Seq<Seq<char>>, p: int) -> (StmtView, nat) {
    let (e, n) = sum(tk, tx, p + 1);
    let (more, m) = say_args(tk, tx, p + 1 + n);
    (StmtView::Say(seq![e] + more), n + m)
}

/// An `if` statement whose keyword is at `p`: a condition, an optional `do`,
/// and a body.
pub open spec fn if_stmt(tk: Seq<Token>, tx: Seq<Seq<char>>, p: int) -> (StmtView, nat)
    decreases remaining(tk, p), 0nat,
    when 0 <= p < tk.len()
{
    let (c, n) = sum(tk, tx, p + 1);
    let q = skip(tk, p + 1 + n, Token::Do);
    let (b, m) = block(tk, tx, q);
    (StmtView::If(c, b), (q + m - p - 1) as nat)
}

/// A `repeat` statement whose keyword is at `p`: a count, `times`, an
/// optional `do`, and a body.
pub open spec fn repeat_stmt(tk: Seq<Token>, tx: Seq<Seq<char>>, p: int) -> Option<(StmtView, nat)>
    decreases remaining(tk, p), 0nat,
    when 0 <= p < tk.len()
{
    let (c, n) = sum(tk, tx, p + 1);
    if tok_at(tk, p + 1 + n) == Some(Token::Times) {
        let q = skip(tk, p + 2 + n, Token::Do);
        let (b, m) = block(tk, tx, q);
        Some((StmtView::Repeat(c, b), (q + m - p - 1) as nat))
    } else {
        None
    }
}

/// A `forever` statement whose keyword is at `p`: an optional `do` and a body.
pub open spec fn forever_stmt(tk: Seq<Token>, tx: Seq<Seq<char>>, p: int) -> (StmtView, nat)
    decreases remaining(tk, p), 0nat,
    when 0 <= p < tk.len()
{
    let q = skip(tk, p + 1, Token::Do);
    let (b, m) = block(tk, tx, q);
    (StmtView::Forever(b), (q + m - p - 1) as nat)
}

/// The statement that starts at `p`, with how many tokens follow its first;
/// `None` where no statement starts there, also at the end of input. The key
/// name of a bare `key-pressed` is its slice without the quotes.
pub open spec fn stmt(tk: Seq<Token>, tx: Seq<Seq<char>>, p: int) -> Option<(StmtView, nat)>
    decreases remaining(tk, p), 1nat,
{
    match tok_at(tk, p) {
        Some(Token::Make) => make_stmt(tk, tx, p),
        Some(Token::Change) => change_stmt(tk, tx, p),
        Some(Token::Say) => Some(say_stmt(tk, tx, p)),
        Some(Token::If) => Some(if_stmt(tk, tx, p)),
        Some(Token::Repeat) => repeat_stmt(tk, tx, p),
        Some(Token::Forever) => Some(forever_stmt(tk, tx, p)),
        Some(Token::KeyPressed) => if tok_at(tk, p + 1) == Some(Token::Text) {
            Some((StmtView::ExprStmt(ExprView::Key(unquote(text_at(tx, p + 1)))), 1))
        } else {
            None
        },
        Some(Token::Identifier) => Some((StmtView::ExprStmt(ExprView::Call(text_at(tx, p))), 0)),
        _ => None,
    }
}

/// The statements of a body from `p` on: up to the end of input or to the
/// next bare identifier. A token that starts no statement is skipped.
pub open spec fn block(tk: Seq<Token>, tx: Seq<Seq<char>>, p: int) -> (Seq<StmtView>, nat)
    decreases remaining(tk, p), 2nat,
{
    match tok_at(tk, p) {
        None => (seq![], 0),
        Some(Token::Identifier) => (seq![], 0),
        Some(_) => match stmt(tk, tx, p) {
            Some((s, n)) => {
                let (rest, m) = block(tk, tx, p + 1 + n);
                (seq![s] + rest, 1 + n + m)
            },
            None => {
                let (rest, m) = block(tk, tx, p + 1);
                (rest, 1 + m)
            },
        },
    }
}

/// The statements of a whole script from `p` on. A token that starts no
/// statement is skipped.
pub open spec fn program(tk: Seq<Token>, tx: Seq<Seq<char>>, p: int) -> Seq<StmtView>
    decreases remaining(tk, p),
{
    if 0 <= p < tk.len() {
        match stmt(tk, tx, p) {
            Some((s, n)) => seq![s] + program(tk, tx, p + 1 + n),
            None => program(tk, tx, p + 1),
        }
    } else {
        seq![]
    }
}


/// A token that starts no statement is skipped and nothing else changes:
/// the statements before and after it are kept, in order.
pub proof fn lemma_skip_unrecognized(
    tk: Seq<Token>,
    tx: Seq<Seq<char>>,
    p: int,
    s1: StmtView,
    n1: nat,
    s2: StmtView,
    n2: nat,
)
    requires
        0 <= p,
        stmt(tk, tx, p) == Some((s1, n1)),
        p + 1 + n1 < tk.len(),
        stmt(tk, tx, p + 1 + n1) is None,
        stmt(tk, tx, p + 2 + n1) == Some((s2, n2)),
    ensures
        program(tk, tx, p) == seq![s1, s2] + program(tk, tx, p + 3 + n1 + n2),
{
    let q = p + 2 + n1;
    assert(q < tk.len());
    assert(program(tk, tx, q) == seq![s2] + program(tk, tx, q + 1 + n2));
    assert(program(tk, tx, p + 1 + n1) == program(tk, tx, q));
    assert(program(tk, tx, p) == seq![s1] + program(tk, tx, p + 1 + n1));
    assert(seq![s1] + (seq![s2] + program(tk, tx, q + 1 + n2)) =~= seq![s1, s2] + program(tk, tx, q + 1 + n2));
}

proof fn lemma_decimal_nonneg(s: Seq<char>)
    ensures
        decimal_value(s) >= 0,
    decreases s.len(),
{
    if s.len() > 0 {
        lemma_decimal_nonneg(s.drop_last());
    }
}

/// The value of a numeric literal's text; see `literal_number`.
fn number_of(t: &str) -> (r: i64)
    ensures
        r == literal_number(t@),
{
    let n = t.unicode_len();
    let mut acc: i64 = 0;
    let mut over = false;
    let mut i: usize = 0;
    proof {
        assert(t@.subrange(0, 0) =~= Seq::<char>::empty());
    }
    while i < n
        invariant
            n == t@.len(),
            i <= n,
            !over ==> acc as int == decimal_value(t@.subrange(0, i as int)),
            over ==> decimal_value(t@.subrange(0, i as int)) > i64::MAX,
        decreases n - i,
    {
        let c = t.get_char(i);
        let d: i64 = if '0' <= c && c <= '9' {
            (c as u32 - '0' as u32) as i64
        } else {
            0
        };
        proof {
            assert(t@.subrange(0, i + 1).drop_last() =~= t@.subrange(0, i as int));
            lemma_decimal_nonneg(t@.subrange(0, i as int));
        }
        if !over {
            match acc.checked_mul(10) {
                Some(m) => match m.checked_add(d) {
                    Some(v) => {
                        acc = v;
                    },
                    None => {
                        over = true;
                    },
                },
                None => {
                    over = true;
                },
            }
        }
        i = i + 1;
    }
    proof {
        assert(t@.subrange(0, n as int) =~= t@);
    }
    if over {
        0
    } else {
        acc
    }
}

/// A quoted literal's text without its quotes; see `unquote`.
fn unquoted(t: &str) -> (r: String)
    ensures
        r@ == unquote(t@),
{
    let n = t.unicode_len();
    if n >= 2 && t.get_char(0) == '"' && t.get_char(n - 1) == '"' {
        t.substring_char(1, n - 1).to_owned()
    } else {
        t.to_owned()
    }
}

/// Parses a token sequence, each token paired with its exact source slice,
/// into statements.
pub struct Parser<'a> {
    tokens: Vec<Token>,
    text: Vec<&'a str>,
    pos: usize,
}

impl<'a> Parser<'a> {
    /// The tokens being parsed.
    pub closed spec fn toks(&self) -> Seq<Token> {
        self.tokens@
    }

    /// The text of each token, empty where none was given.
    pub closed spec fn texts(&self) -> Seq<Seq<char>> {
        Seq::new(
            self.tokens@.len(),
            |i: int|
                if i < self.text@.len() {
                    self.text@[i]@
                } else {
                    seq![]
                },
        )
    }

    /// The position of the next token to read.
    pub closed spec fn position(&self) -> int {
        self.pos as int
    }

    spec fn same_input(&self, other: &Parser<'a>) -> bool {
        self.tokens == other.tokens && self.text == other.text
    }

    pub fn new(tokens: Vec<Token>, text: Vec<&'a str>) -> (r: Self)
        ensures
            r.toks() == tokens@,
            r.texts() == Seq::new(
                tokens@.len(),
                |i: int|
                    if i < text@.len() {
                        text@[i]@
                    } else {
                        seq![]
                    },
            ),
            r.position() == 0,
    {
        Parser { tokens, text, pos: 0 }
    }

    fn current(&self) -> (r: Option<Token>)
        ensures
            r == tok_at(self.tokens@, self.pos as int),
            r is Some ==> self.pos < usize::MAX,
    {
        if self.pos < self.tokens.len() {
            Some(self.tokens[self.pos])
        } else {
            None
        }
    }

    fn peek_next(&self) -> (r: Option<Token>)
        requires
            self.pos < self.tokens@.len(),
        ensures
            r == tok_at(self.tokens@, self.pos + 1),
            r is Some ==> self.pos + 1 < usize::MAX,
    {
        if self.tokens.len() - self.pos > 1 {
            Some(self.tokens[self.pos + 1])
        } else {
            None
        }
    }

    fn current_text(&self) -> (r: &'a str)
        requires
            self.pos < self.tokens@.len(),
        ensures
            r@ == text_at(self.texts(), self.pos as int),
    {
        if self.pos < self.text.len() {
            self.text[self.pos]
        } else {
            proof {
                reveal_strlit("");
            }
            ""
        }
    }

    fn advance(&mut self)
        requires
            old(self).pos < old(self).tokens@.len(),
        ensures
            final(self).same_input(old(self)),
            final(self).pos == old(self).pos + 1,
    {
        if self.pos < self.tokens.len() {
            self.pos = self.pos + 1;
        }
    }

    fn eat(&mut self, tok: Token) -> (r: bool)
        ensures
            final(self).same_input(old(self)),
            r == (tok_at(old(self).tokens@, old(self).pos as int) == Some(tok)),
            final(self).pos == skip(old(self).tokens@, old(self).pos as int, tok),
    {
        match self.current() {
            Some(t) => if t == tok {
                self.pos = self.pos + 1;
                true
            } else {
                false
            },
            None => false,
        }
    }

    fn parse_primary(&mut self) -> (e: Expr)
        requires
            old(self).pos <= old(self).tokens@.len(),
        ensures
            final(self).same_input(old(self)),
            old(self).pos <= final(self).pos <= final(self).tokens@.len(),
            old(self).pos < old(self).tokens@.len() ==> old(self).pos < final(self).pos,
            primary(old(self).tokens@, old(self).texts(), old(self).pos as int) == (
                e@,
                (final(self).pos - old(self).pos) as nat,
            ),
        decreases remaining(old(self).tokens@, old(self).pos as int), 0nat,
    {
        match self.current() {
            Some(Token::Number) => {
                let v = number_of(self.current_text());
                self.pos = self.pos + 1;
                Expr::Value(Value::Number(v))
            },
            Some(Token::Text) => {
                let t = unquoted(self.current_text());
                self.pos = self.pos + 1;
                Expr::Value(Value::Text(t))
            },
            Some(Token::Identifier) => {
                let t = self.current_text().to_owned();
                self.pos = self.pos + 1;
                Expr::Var(t)
            },
            Some(Token::KeyPressed) => {
                self.pos = self.pos + 1;
                if matches!(self.current(), Some(Token::Text)) {
                    let k = unquoted(self.current_text());
                    self.pos = self.pos + 1;
                    Expr::KeyPressed(k)
                } else {
                    Expr::Value(Value::Number(0))
                }
            },
            Some(Token::Minus) => {
                self.pos = self.pos + 1;
                let e = self.parse_primary();
                let z = Expr::Value(Value::Number(0));
                assert(z@ == zero());
                let neg = Expr::BinaryOp(Box::new(z), "-".to_owned(), Box::new(e));
                assert(neg@ == ExprView::Bin(Box::new(zero()), "-"@, Box::new(e@)));
                neg
            },
            Some(Token::LParen) => {
                self.pos = self.pos + 1;
                let e = self.parse_expr();
                if matches!(self.current(), Some(Token::RParen)) {
                    self.pos = self.pos + 1;
                }
                e
            },
            Some(_) => {
                self.pos = self.pos + 1;
                Expr::Value(Value::Number(0))
            },
            None => Expr::Value(Value::Number(0)),
        }
    }

    fn parse_product(&mut self) -> (e: Expr)
        requires
            old(self).pos <= old(self).tokens@.len(),
        ensures
            final(self).same_input(old(self)),
            old(self).pos <= final(self).pos <= final(self).tokens@.len(),
            old(self).pos < old(self).tokens@.len() ==> old(self).pos < final(self).pos,
            product(old(self).tokens@, old(self).texts(), old(self).pos as int) == (
                e@,
                (final(self).pos - old(self).pos) as nat,
            ),
        decreases remaining(old(self).tokens@, old(self).pos as int), 2nat,
    {
        let ghost tk = self.tokens@;
        let ghost tx = self.texts();
        let ghost start = self.pos as int;
        let mut left = self.parse_primary();
        let ghost ops_start = self.pos as int;
        let ghost goal = product_rest(tk, tx, left@, ops_start);
        loop
            invariant
                start == old(self).pos,
                tk == old(self).tokens@,
                self.tokens@ == tk,
                self.texts() == tx,
                self.same_input(old(self)),
                start <= ops_start <= self.pos <= tk.len(),
                start < tk.len() ==> start < ops_start,
                product_rest(tk, tx, left@, self.pos as int) == (goal.0, (goal.1 - (self.pos - ops_start)) as nat),
                goal.1 >= self.pos - ops_start,
            ensures
                left@ == goal.0,
                goal.1 == self.pos - ops_start,
                self.same_input(old(self)),
                start <= ops_start <= self.pos <= tk.len(),
                start < tk.len() ==> start < ops_start,
            decreases remaining(tk, self.pos as int),
        {
            let op = match self.current() {
                Some(Token::Star) => "*",
                Some(Token::Slash) => "/",
                Some(Token::Percent) => "%",
                _ => break,
            };
            self.pos = self.pos + 1;
            let right = self.parse_primary();
            left = Expr::BinaryOp(Box::new(left), op.to_owned(), Box::new(right));
        }
        left
    }

    fn parse_expr(&mut self) -> (e: Expr)
        requires
            old(self).pos <= old(self).tokens@.len(),
        ensures
            final(self).same_input(old(self)),
            old(self).pos <= final(self).pos <= final(self).tokens@.len(),
            old(self).pos < old(self).tokens@.len() ==> old(self).pos < final(self).pos,
            sum(old(self).tokens@, old(self).texts(), old(self).pos as int) == (
                e@,
                (final(self).pos - old(self).pos) as nat,
            ),
        decreases remaining(old(self).tokens@, old(self).pos as int), 4nat,
    {
        let ghost tk = self.tokens@;
        let ghost tx = self.texts();
        let ghost start = self.pos as int;
        let mut left = self.parse_product();
        let ghost ops_start = self.pos as int;
        let ghost goal = sum_rest(tk, tx, left@, ops_start);
        loop
            invariant
                start == old(self).pos,
                tk == old(self).tokens@,
                self.tokens@ == tk,
                self.texts() == tx,
                self.same_input(old(self)),
                start <= ops_start <= self.pos <= tk.len(),
                start < tk.len() ==> start < ops_start,
                sum_rest(tk, tx, left@, self.pos as int) == (goal.0, (goal.1 - (self.pos - ops_start)) as nat),
                goal.1 >= self.pos - ops_start,
            ensures
                left@ == goal.0,
                goal.1 == self.pos - ops_start,
                self.same_input(old(self)),
                start <= ops_start <= self.pos <= tk.len(),
                start < tk.len() ==> start < ops_start,
            decreases remaining(tk, self.pos as int),
        {
            let op = match self.current() {
                Some(Token::Plus) => "+",
                Some(Token::Minus) => "-",
                _ => break,
            };
            self.pos = self.pos + 1;
            let right = self.parse_product();
            left = Expr::BinaryOp(Box::new(left), op.to_owned(), Box::new(right));
        }
        left
    }

    fn parse_block(&mut self) -> (body: Vec<Stmt>)
        requires
            old(self).pos <= old(self).tokens@.len(),
        ensures
            final(self).same_input(old(self)),
            old(self).pos <= final(self).pos <= final(self).tokens@.len(),
            block(old(self).tokens@, old(self).texts(), old(self).pos as int) == (
                stmts_view(body@),
                (final(self).pos - old(self).pos) as nat,
            ),
        decreases remaining(old(self).tokens@, old(self).pos as int), 2nat,
    {
        let ghost tk = self.tokens@;
        let ghost tx = self.texts();
        let ghost start = self.pos as int;
        let ghost goal = block(tk, tx, start);
        let mut body: Vec<Stmt> = Vec::new();
        while self.pos < self.tokens.len() && !matches!(self.current(), Some(Token::Identifier))
            invariant
                start == old(self).pos,
                tk == old(self).tokens@,
                self.tokens@ == tk,
                self.texts() == tx,
                self.same_input(old(self)),
                start <= self.pos <= tk.len(),
                goal.0 == stmts_view(body@) + block(tk, tx, self.pos as int).0,
                goal.1 == (self.pos - start) + block(tk, tx, self.pos as int).1,
            decreases remaining(tk, self.pos as int),
        {
            let ghost before = body@;
            match self.parse_stmt() {
                Some(st) => {
                    body.push(st);
                    assert(stmts_view(body@) =~= stmts_view(before) + seq![st@]);
                },
                None => {
                    self.pos = self.pos + 1;
                },
            }
        }
        assert(stmts_view(body@) + seq![] =~= stmts_view(body@));
        body
    }

    /// What parsing a statement from `before` to `after` must give: the
    /// statement that `stmt` describes, or `None` with the position unmoved.
    spec fn stmt_parsed(
        before: &Parser<'a>,
        after: &Parser<'a>,
        r: Option<Stmt>,
        expected: Option<(StmtView, nat)>,
    ) -> bool {
        &&& after.same_input(before)
        &&& match r {
            Some(st) => before.pos < after.pos <= after.tokens@.len() && expected == Some(
                (st@, (after.pos - before.pos - 1) as nat),
            ),
            None => after.pos == before.pos && expected is None,
        }
    }

    fn parse_make(&mut self) -> (r: Option<Stmt>)
        requires
            tok_at(old(self).tokens@, old(self).pos as int) == Some(Token::Make),
        ensures
            Self::stmt_parsed(old(self), final(self), r, make_stmt(old(self).tokens@, old(self).texts(), old(self).pos as int)),
        decreases remaining(old(self).tokens@, old(self).pos as int), 0nat,
    {
        if !matches!(self.peek_next(), Some(Token::Identifier)) {
            return None;
        }
        self.pos = self.pos + 1;
        let name = self.current_text().to_owned();
        self.pos = self.pos + 1;
        let mut value: Option<Expr> = None;
        if self.eat(Token::Be) {
            value = Some(self.parse_expr());
        }
        let mut body: Vec<Stmt> = Vec::new();
        if self.eat(Token::Do) {
            body = self.parse_block();
        }
        let st = Stmt::Make(name, value, body);
        assert(body_of(st@) =~= stmts_view(body@));
        proof {
            let tk = old(self).tokens@;
            let tx = old(self).texts();
            let p = old(self).pos as int;
            let spec_st = make_stmt(tk, tx, p).unwrap().0;
            assert(spec_st->Make_0 == st@->Make_0);
            assert(spec_st->Make_1 == st@->Make_1);
            assert(spec_st->Make_2 == st@->Make_2);
        }
        Some(st)
    }

    fn parse_change(&mut self) -> (r: Option<Stmt>)
        requires
            tok_at(old(self).tokens@, old(self).pos as int) == Some(Token::Change),
        ensures
            Self::stmt_parsed(old(self), final(self), r, change_stmt(old(self).tokens@, old(self).texts(), old(self).pos as int)),
    {
        if !matches!(self.peek_next(), Some(Token::Identifier)) {
            return None;
        }
        let start = self.pos;
        self.pos = self.pos + 1;
        let name = self.current_text().to_owned();
        self.pos = self.pos + 1;
        if !self.eat(Token::To) {
            self.pos = start;
            return None;
        }
        let e = self.parse_expr();
        Some(Stmt::Change(name, e))
    }

    fn parse_say(&mut self) -> (r: Option<Stmt>)
        requires
            tok_at(old(self).tokens@, old(self).pos as int) == Some(Token::Say),
        ensures
            Self::stmt_parsed(old(self), final(self), r, Some(say_stmt(old(self).tokens@, old(self).texts(), old(self).pos as int))),
    {
        let ghost tk = self.tokens@;
        let ghost tx = self.texts();
        let ghost start = self.pos as int;
        self.advance();
        let mut exprs: Vec<Expr> = Vec::new();
        let first = self.parse_expr();
        let ghost args_start = self.pos as int;
        let ghost goal = say_args(tk, tx, args_start);
        exprs.push(first);
        proof {
            assert(exprs_view(exprs@) =~= seq![first@]);
        }
        while matches!(self.current(), Some(Token::Number) | Some(Token::Text) | Some(Token::LParen) | Some(Token::KeyPressed))
            invariant
                start == old(self).pos,
                tk == old(self).tokens@,
                self.tokens@ == tk,
                self.texts() == tx,
                self.same_input(old(self)),
                start < args_start <= self.pos <= tk.len(),
                seq![first@] + goal.0 == exprs_view(exprs@) + say_args(tk, tx, self.pos as int).0,
                goal.1 == (self.pos - args_start) + say_args(tk, tx, self.pos as int).1,
            decreases remaining(tk, self.pos as int),
        {
            let ghost before = exprs@;
            let e = self.parse_expr();
            exprs.push(e);
            assert(exprs_view(exprs@) =~= exprs_view(before) + seq![e@]);
        }
        assert(exprs_view(exprs@) + seq![] =~= exprs_view(exprs@));
        Some(Stmt::Say(exprs))
    }

    fn parse_if(&mut self) -> (r: Option<Stmt>)
        requires
            tok_at(old(self).tokens@, old(self).pos as int) == Some(Token::If),
        ensures
            Self::stmt_parsed(old(self), final(self), r, Some(if_stmt(old(self).tokens@, old(self).texts(), old(self).pos as int))),
        decreases remaining(old(self).tokens@, old(self).pos as int), 0nat,
    {
        self.advance();
        let cond = self.parse_expr();
        self.eat(Token::Do);
        let body = self.parse_block();
        let st = Stmt::If(cond, body);
        assert(body_of(st@) =~= stmts_view(body@));
        Some(st)
    }

    fn parse_repeat(&mut self) -> (r: Option<Stmt>)
        requires
            tok_at(old(self).tokens@, old(self).pos as int) == Some(Token::Repeat),
        ensures
            Self::stmt_parsed(old(self), final(self), r, repeat_stmt(old(self).tokens@, old(self).texts(), old(self).pos as int)),
        decreases remaining(old(self).tokens@, old(self).pos as int), 0nat,
    {
        let start = self.pos;
        self.advance();
        let times = self.parse_expr();
        if !self.eat(Token::Times) {
            self.pos = start;
            return None;
        }
        self.eat(Token::Do);
        let body = self.parse_block();
        let st = Stmt::Repeat(times, body);
        assert(body_of(st@) =~= stmts_view(body@));
        Some(st)
    }

    fn parse_forever(&mut self) -> (r: Option<Stmt>)
        requires
            tok_at(old(self).tokens@, old(self).pos as int) == Some(Token::Forever),
        ensures
            Self::stmt_parsed(old(self), final(self), r, Some(forever_stmt(old(self).tokens@, old(self).texts(), old(self).pos as int))),
        decreases remaining(old(self).tokens@, old(self).pos as int), 0nat,
    {
        self.advance();
        self.eat(Token::Do);
        let body = self.parse_block();
        let st = Stmt::Forever(body);
        assert(body_of(st@) =~= stmts_view(body@));
        Some(st)
    }

    /// Parses the statement at the current position. Where none starts
    /// there, returns `None` and leaves the position as it was.
    fn parse_stmt(&mut self) -> (r: Option<Stmt>)
        ensures
            Self::stmt_parsed(
                old(self),
                final(self),
                r,
                stmt(old(self).tokens@, old(self).texts(), old(self).pos as int),
            ),
        decreases remaining(old(self).tokens@, old(self).pos as int), 1nat,
    {
        match self.current() {
            Some(Token::Make) => self.parse_make(),
            Some(Token::Change) => self.parse_change(),
            Some(Token::Say) => self.parse_say(),
            Some(Token::If) => self.parse_if(),
            Some(Token::Repeat) => self.parse_repeat(),
            Some(Token::Forever) => self.parse_forever(),
            Some(Token::KeyPressed) => {
                if !matches!(self.peek_next(), Some(Token::Text)) {
                    return None;
                }
                self.pos = self.pos + 1;
                let key = unquoted(self.current_text());
                self.pos = self.pos + 1;
                Some(Stmt::ExprStmt(Expr::KeyPressed(key)))
            },
            Some(Token::Identifier) => {
                let name = self.current_text().to_owned();
                self.pos = self.pos + 1;
                Some(Stmt::ExprStmt(Expr::FuncCall(name)))
            },
            _ => None,
        }
    }

    /// Parses statements from the current position to the end of input.
    /// A token that starts no statement is skipped; parsing never fails.
    pub fn parse(&mut self) -> (r: Vec<Stmt>)
        requires
            old(self).position() <= old(self).toks().len(),
        ensures
            final(self).toks() == old(self).toks(),
            final(self).texts() == old(self).texts(),
            final(self).position() == old(self).toks().len(),
            stmts_view(r@) == program(old(self).toks(), old(self).texts(), old(self).position()),
    {
        let ghost tk = self.tokens@;
        let ghost tx = self.texts();
        let ghost goal = program(tk, tx, self.pos as int);
        let mut stmts: Vec<Stmt> = Vec::new();
        while self.pos < self.tokens.len()
            invariant
                tk == old(self).tokens@,
                self.tokens@ == tk,
                self.texts() == tx,
                self.same_input(old(self)),
                self.pos <= tk.len(),
                goal == stmts_view(stmts@) + program(tk, tx, self.pos as int),
            decreases tk.len() - self.pos,
        {
            let ghost before = stmts@;
            match self.parse_stmt() {
                Some(st) => {
                    stmts.push(st);
                    assert(stmts_view(stmts@) =~= stmts_view(before) + seq![st@]);
                },
                None => {
                    self.pos = self.pos + 1;
                },
            }
        }
        assert(stmts_view(stmts@) + seq![] =~= stmts_view(stmts@));
        stmts
    }
}

} // verus!
