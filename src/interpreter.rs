//! Tree-walking evaluation of statements over a variable environment and a
//! procedure table.
use vstd::prelude::*;
use crate::ast::{Expr, ExprView, Stmt, StmtView, Val, Value, body_of, exprs_view, lemma_body_view, stmts_view};
use vstd::arithmetic::div_mod::{
    lemma_div_is_ordered_by_denominator,
    lemma_div_pos_is_pos,
    lemma_mod_pos_bound,
    lemma_small_mod,
};
use crate::parser::{decimal_value, digit_value, literal_number};
use crate::table::Table;

verus! {

/// How deeply procedure calls may nest within one run before the run stops
/// with `Outcome::TooDeep`.
pub const MAX_CALL_DEPTH: usize = 500;

/// The absolute value.
pub open spec fn abs(a: int) -> int {
    if a < 0 {
        -a
    } else {
        a
    }
}

/// Integer division rounding toward zero.
pub open spec fn trunc_div(a: int, b: int) -> int {
    let q = abs(a) / abs(b);
    if (a < 0) == (b < 0) {
        q
    } else {
        -q
    }
}

/// The remainder of `trunc_div`: it takes the sign of the dividend.
pub open spec fn trunc_rem(a: int, b: int) -> int {
    let r = abs(a) % abs(b);
    if a < 0 {
        -r
    } else {
        r
    }
}

/// `a / b` on 64-bit numbers: truncating, 0 for a zero divisor, and wrapping
/// for the one quotient that does not fit.
pub open spec fn quot(a: i64, b: i64) -> i64 {
    if b == 0 {
        0
    } else if a == i64::MIN && b == -1 {
        i64::MIN
    } else {
        trunc_div(a as int, b as int) as i64
    }
}

/// `a % b` on 64-bit numbers: truncating, 0 for a zero divisor.
pub open spec fn rem(a: i64, b: i64) -> i64 {
    if b == 0 || (a == i64::MIN && b == -1) {
        0
    } else {
        trunc_rem(a as int, b as int) as i64
    }
}

/// A binary operator applied to two numbers; 0 for an unknown operator.
/// Addition, subtraction and multiplication wrap around on overflow.
pub open spec fn arith(op: Seq<char>, a: i64, b: i64) -> i64 {
    if op == "+"@ {
        a.wrapping_add(b)
    } else if op == "-"@ {
        a.wrapping_sub(b)
    } else if op == "*"@ {
        a.wrapping_mul(b)
    } else if op == "/"@ {
        quot(a, b)
    } else if op == "%"@ {
        rem(a, b)
    } else {
        0
    }
}

/// What `key-pressed <name>` gives when `key` was recorded last: for the
/// wildcard `any` the key itself as text (empty if none), else 1 when the
/// key is `name` and 0 otherwise.
pub open spec fn key_value(key: Option<Seq<char>>, name: Seq<char>) -> Val {
    if name == "any"@ {
        Val::Txt(
            match key {
                Some(k) => k,
                None => seq![],
            },
        )
    } else if key == Some(name) {
        Val::Num(1)
    } else {
        Val::Num(0)
    }
}

/// The value of an expression. Unset variables, procedure calls, and any
/// operation on a non-number give `Num(0)`.
pub open spec fn eval(vars: Map<Seq<char>, Val>, key: Option<Seq<char>>, e: ExprView) -> Val
    decreases e,
{
    match e {
        ExprView::Lit(v) => v,
        ExprView::Var(n) => if vars.contains_key(n) {
            vars[n]
        } else {
            Val::Num(0)
        },
        ExprView::Bin(l, op, r) => match (eval(vars, key, *l), eval(vars, key, *r)) {
            (Val::Num(a), Val::Num(b)) => Val::Num(arith(op, a, b)),
            _ => Val::Num(0),
        },
        ExprView::Call(_) => Val::Num(0),
        ExprView::Key(k) => key_value(key, k),
    }
}

/// Whether a value counts as true: a nonzero number.
pub open spec fn truthy(v: Val) -> bool {
    match v {
        Val::Num(n) => n != 0,
        Val::Txt(_) => false,
    }
}

/// How many times a `repeat` with this count runs its body.
pub open spec fn repeat_count(v: Val) -> nat {
    match v {
        Val::Num(n) => if n > 0 {
            n as nat
        } else {
            0
        },
        Val::Txt(_) => 0,
    }
}

/// The character of a decimal digit.
pub open spec fn digit_char(d: nat) -> char {
    if d == 0 {
        '0'
    } else if d == 1 {
        '1'
    } else if d == 2 {
        '2'
    } else if d == 3 {
        '3'
    } else if d == 4 {
        '4'
    } else if d == 5 {
        '5'
    } else if d == 6 {
        '6'
    } else if d == 7 {
        '7'
    } else if d == 8 {
        '8'
    } else {
        '9'
    }
}

/// The decimal digits of `n`, without leading zeros.
pub open spec fn digits(n: nat) -> Seq<char>
    decreases n,
{
    if n < 10 {
        seq![digit_char(n)]
    } else {
        digits(n / 10) + seq![digit_char(n % 10)]
    }
}

/// The canonical decimal form of a number.
pub open spec fn decimal(n: int) -> Seq<char> {
    if n < 0 {
        seq!['-'] + digits((-n) as nat)
    } else {
        digits(n as nat)
    }
}

/// How a value is printed.
pub open spec fn render(v: Val) -> Seq<char> {
    match v {
        Val::Num(n) => decimal(n as int),
        Val::Txt(s) => s,
    }
}

/// The line that `say` prints: the renderings of its expressions, joined
/// with no separator.
pub open spec fn say_line(vars: Map<Seq<char>, Val>, key: Option<Seq<char>>, es: Seq<ExprView>) -> Seq<
    char,
>
    decreases es.len(),
{
    if es.len() == 0 {
        seq![]
    } else {
        say_line(vars, key, es.drop_last()) + render(eval(vars, key, es.last()))
    }
}

/// The model of an interpreter: variables, procedures, the key recorded last
/// (none outside a `forever` loop), and the lines printed so far.
pub ghost struct State {
    pub vars: Map<Seq<char>, Val>,
    pub procs: Map<Seq<char>, Seq<StmtView>>,
    pub key: Option<Seq<char>>,
    pub out: Seq<Seq<char>>,
}

/// How running statements ended: all of them ran; a `forever` loop was
/// entered, which never returns, with this body; or calls nested too deeply.
pub ghost enum Flow {
    Done,
    Forever(Seq<StmtView>),
    TooDeep,
}

/// The state of a new interpreter.
pub open spec fn fresh_state() -> State {
    State { vars: Map::empty(), procs: Map::empty(), key: None, out: seq![] }
}

/// Runs one statement; `depth` is how many more calls may nest.
pub open spec fn exec_stmt(st: State, s: StmtView, depth: nat) -> (State, Flow)
    decreases depth, s, 0nat,
{
    match s {
        StmtView::Make(n, e, b) => {
            let st1 = match e {
                Some(x) => State { vars: st.vars.insert(n, eval(st.vars, st.key, x)), ..st },
                None => st,
            };
            let st2 = if b.len() > 0 {
                State { procs: st1.procs.insert(n, b), ..st1 }
            } else {
                st1
            };
            (st2, Flow::Done)
        },
        StmtView::Change(n, e) => (
            State { vars: st.vars.insert(n, eval(st.vars, st.key, e)), ..st },
            Flow::Done,
        ),
        StmtView::Say(es) => (State { out: st.out.push(say_line(st.vars, st.key, es)), ..st }, Flow::Done),
        StmtView::If(c, b) => if truthy(eval(st.vars, st.key, c)) {
            exec_block(st, b, 0, depth)
        } else {
            (st, Flow::Done)
        },
        StmtView::Repeat(c, b) => repeat_body(st, b, repeat_count(eval(st.vars, st.key, c)), depth),
        StmtView::Forever(b) => (st, Flow::Forever(b)),
        StmtView::ExprStmt(ExprView::Call(n)) => if !st.procs.contains_key(n) {
            (st, Flow::Done)
        } else if depth == 0 {
            (st, Flow::TooDeep)
        } else {
            exec_block(st, st.procs[n], 0, (depth - 1) as nat)
        },
        StmtView::ExprStmt(_) => (st, Flow::Done),
    }
}

/// Runs the statements of `b` from index `i` on, stopping at the first that
/// does not end with `Flow::Done`.
pub open spec fn exec_block(st: State, b: Seq<StmtView>, i: int, depth: nat) -> (State, Flow)
    decreases depth, b, if 0 <= i <= b.len() { (b.len() - i) as nat } else { 0 },
{
    if 0 <= i < b.len() {
        let (st1, f) = exec_stmt(st, b[i], depth);
        if f is Done {
            exec_block(st1, b, i + 1, depth)
        } else {
            (st1, f)
        }
    } else {
        (st, Flow::Done)
    }
}

/// Runs `b` `k` times over, stopping early as `exec_block` does.
pub open spec fn repeat_body(st: State, b: Seq<StmtView>, k: nat, depth: nat) -> (State, Flow)
    decreases depth, b, b.len() + 1 + k,
{
    if k == 0 {
        (st, Flow::Done)
    } else {
        let (st1, f) = exec_block(st, b, 0, depth);
        if f is Done {
            repeat_body(st1, b, (k - 1) as nat, depth)
        } else {
            (st1, f)
        }
    }
}

/// How running ended.
pub enum Outcome<'a> {
    /// Every statement ran.
    Finished,
    /// A `forever` loop with this body was entered: the caller runs it with
    /// `Interpreter::step_forever`, once per polled key.
    Looping(&'a [Stmt]),
    /// Procedure calls nested more than `MAX_CALL_DEPTH` deep.
    TooDeep,
}

impl<'a> View for Outcome<'a> {
    type V = Flow;

    open spec fn view(&self) -> Flow {
        match self {
            Outcome::Finished => Flow::Done,
            Outcome::Looping(b) => Flow::Forever(stmts_view(b@)),
            Outcome::TooDeep => Flow::TooDeep,
        }
    }
}

/// Whether two strings hold the same characters.
fn same_text(a: &str, b: &str) -> (r: bool)
    ensures
        r == (a@ == b@),
{
    let n = a.unicode_len();
    if n != b.unicode_len() {
        return false;
    }
    let mut i: usize = 0;
    while i < n
        invariant
            n == a@.len(),
            n == b@.len(),
            i <= n,
            forall|j: int| 0 <= j < i ==> a@[j] == b@[j],
        decreases n - i,
    {
        if a.get_char(i) != b.get_char(i) {
            return false;
        }
        i = i + 1;
    }
    assert(a@ =~= b@);
    true
}

proof fn lemma_quotient_fits(a: i64, b: i64)
    requires
        b != 0,
        !(a == i64::MIN && b == -1),
    ensures
        i64::MIN <= trunc_div(a as int, b as int) <= i64::MAX,
{
    let x = abs(a as int);
    let d = abs(b as int);
    lemma_div_pos_is_pos(x, d);
    lemma_div_is_ordered_by_denominator(x, 1, d);
    if d >= 2 {
        lemma_div_is_ordered_by_denominator(x, 2, d);
    }
}

/// `a / b`, as `quot` states.
fn quotient(a: i64, b: i64) -> (r: i64)
    ensures
        r == quot(a, b),
{
    if b == 0 {
        0
    } else if a == i64::MIN && b == -1 {
        i64::MIN
    } else {
        proof {
            lemma_quotient_fits(a, b);
        }
        match a.checked_div(b) {
            Some(q) => q,
            None => 0,
        }
    }
}

/// `a % b`, as `rem` states.
fn remainder(a: i64, b: i64) -> (r: i64)
    ensures
        r == rem(a, b),
{
    if b == 0 || (a == i64::MIN && b == -1) {
        0
    } else {
        proof {
            lemma_mod_pos_bound(abs(a as int), abs(b as int));
            lemma_small_mod(0, abs(b as int) as nat);
        }
        match a.checked_rem(b) {
            Some(q) => q,
            None => 0,
        }
    }
}

/// A binary operator on two numbers, as `arith` states.
pub fn apply_op(op: &str, a: i64, b: i64) -> (r: i64)
    ensures
        r == arith(op@, a, b),
{
    if same_text(op, "+") {
        a.wrapping_add(b)
    } else if same_text(op, "-") {
        a.wrapping_sub(b)
    } else if same_text(op, "*") {
        a.wrapping_mul(b)
    } else if same_text(op, "/") {
        quotient(a, b)
    } else if same_text(op, "%") {
        remainder(a, b)
    } else {
        0
    }
}

fn digit_str(d: u64) -> (r: &'static str)
    requires
        d < 10,
    ensures
        r@ == seq![digit_char(d as nat)],
{
    if d == 0 {
        proof { reveal_strlit("0"); }
        "0"
    } else if d == 1 {
        proof { reveal_strlit("1"); }
        "1"
    } else if d == 2 {
        proof { reveal_strlit("2"); }
        "2"
    } else if d == 3 {
        proof { reveal_strlit("3"); }
        "3"
    } else if d == 4 {
        proof { reveal_strlit("4"); }
        "4"
    } else if d == 5 {
        proof { reveal_strlit("5"); }
        "5"
    } else if d == 6 {
        proof { reveal_strlit("6"); }
        "6"
    } else if d == 7 {
        proof { reveal_strlit("7"); }
        "7"
    } else if d == 8 {
        proof { reveal_strlit("8"); }
        "8"
    } else {
        proof { reveal_strlit("9"); }
        "9"
    }
}

fn digits_string(m: u64) -> (r: String)
    ensures
        r@ == digits(m as nat),
    decreases m,
{
    if m < 10 {
        digit_str(m).to_owned()
    } else {
        let mut s = digits_string(m / 10);
        s.append(digit_str(m % 10));
        s
    }
}

/// The canonical decimal form of a number.
pub fn decimal_string(n: i64) -> (r: String)
    ensures
        r@ == decimal(n as int),
{
    if n < 0 {
        let m: u64 = if n == i64::MIN {
            9223372036854775808u64
        } else {
            (-n) as u64
        };
        let mut s = String::new();
        proof { reveal_strlit("-"); }
        s.append("-");
        let d = digits_string(m);
        s.append(d.as_str());
        s
    } else {
        digits_string(n as u64)
    }
}

/// How a value is printed: see `render`.
pub fn render_value(v: &Value) -> (r: String)
    ensures
        r@ == render(v@),
{
    match v {
        Value::Number(n) => decimal_string(*n),
        Value::Text(s) => s.clone(),
    }
}

/// A literal evaluates to itself, whatever the state.
pub proof fn lemma_literal_identity(vars: Map<Seq<char>, Val>, key: Option<Seq<char>>, n: i64)
    ensures
        eval(vars, key, ExprView::Lit(Val::Num(n))) == Val::Num(n),
{
}

proof fn lemma_digits_value(n: nat)
    ensures
        decimal_value(digits(n)) == n,
    decreases n,
{
    if n >= 10 {
        lemma_digits_value(n / 10);
        let s = digits(n);
        assert(s.drop_last() =~= digits(n / 10));
        assert(s.last() == digit_char(n % 10));
        assert(digit_value(digit_char(n % 10)) == n % 10);
        assert(decimal_value(s) == decimal_value(s.drop_last()) * 10 + digit_value(s.last()));
        assert(n == (n / 10) * 10 + n % 10);
    } else {
        let s = digits(n);
        assert(s.drop_last() =~= Seq::<char>::empty());
        assert(decimal_value(s.drop_last()) == 0);
        assert(digit_value(digit_char(n)) == n);
        assert(decimal_value(s) == decimal_value(s.drop_last()) * 10 + digit_value(s.last()));
    }
}

/// A number written in decimal reads back as itself: the literal that
/// spells a nonnegative 64-bit number denotes that number, and evaluates
/// to it.
pub proof fn lemma_numeral_round_trip(vars: Map<Seq<char>, Val>, key: Option<Seq<char>>, n: i64)
    requires
        n >= 0,
    ensures
        literal_number(decimal(n as int)) == n,
        eval(vars, key, ExprView::Lit(Val::Num(literal_number(decimal(n as int))))) == Val::Num(n),
{
    lemma_digits_value(n as nat);
}

/// Division and remainder truncate toward zero: for a nonzero divisor the
/// quotient and remainder recombine to the dividend, the remainder is smaller
/// than the divisor and has the dividend's sign; for a zero divisor both are 0.
pub proof fn lemma_division(a: i64, b: i64)
    ensures
        b == 0 ==> arith("/"@, a, b) == 0 && arith("%"@, a, b) == 0,
        b != 0 && !(a == i64::MIN && b == -1) ==> {
            &&& arith("/"@, a, b) == trunc_div(a as int, b as int)
            &&& arith("%"@, a, b) == trunc_rem(a as int, b as int)
            &&& a == b * trunc_div(a as int, b as int) + trunc_rem(a as int, b as int)
            &&& abs(trunc_rem(a as int, b as int)) < abs(b as int)
            &&& (trunc_rem(a as int, b as int) == 0 || (trunc_rem(a as int, b as int) < 0) == (a < 0))
        },
{
    reveal_strlit("+");
    reveal_strlit("-");
    reveal_strlit("*");
    reveal_strlit("/");
    reveal_strlit("%");
    assert("/"@[0] != "+"@[0] && "/"@[0] != "-"@[0] && "/"@[0] != "*"@[0]);
    assert("%"@[0] != "+"@[0] && "%"@[0] != "-"@[0] && "%"@[0] != "*"@[0] && "%"@[0] != "/"@[0]);
    if b != 0 && !(a == i64::MIN && b == -1) {
        let x = abs(a as int);
        let d = abs(b as int);
        lemma_quotient_fits(a, b);
        lemma_mod_pos_bound(x, d);
        vstd::arithmetic::div_mod::lemma_fundamental_div_mod(x, d);
        let q = x / d;
        let r = x % d;
        assert(x == d * q + r);
        if a < 0 && b < 0 {
            assert(a == b * q - r) by (nonlinear_arith)
                requires
                    x == -a,
                    d == -b,
                    x == d * q + r,
            ;
        } else if a < 0 {
            assert(a == b * (-q) - r) by (nonlinear_arith)
                requires
                    x == -a,
                    d == b,
                    x == d * q + r,
            ;
        } else if b < 0 {
            assert(a == b * (-q) + r) by (nonlinear_arith)
                requires
                    x == a,
                    d == -b,
                    x == d * q + r,
            ;
        }
        let tr = trunc_rem(a as int, b as int);
        assert(tr as i64 == tr);
        assert(trunc_div(a as int, b as int) as i64 == trunc_div(a as int, b as int));
    }
}

/// A `repeat` whose count is not a positive number runs nothing and
/// changes nothing.
pub proof fn lemma_repeat_nonpositive(st: State, c: ExprView, b: Seq<StmtView>, depth: nat)
    requires
        match eval(st.vars, st.key, c) {
            Val::Num(k) => k <= 0,
            Val::Txt(_) => true,
        },
    ensures
        exec_stmt(st, StmtView::Repeat(c, b), depth) == (st, Flow::Done),
{
}

/// Calling a procedure runs its stored body once, one level deeper; calling
/// a name with no procedure changes nothing, prints nothing, and completes.
pub proof fn lemma_call(st: State, n: Seq<char>, depth: nat)
    ensures
        !st.procs.contains_key(n) ==> exec_stmt(st, StmtView::ExprStmt(ExprView::Call(n)), depth) == (
            st,
            Flow::Done,
        ),
        st.procs.contains_key(n) && depth > 0 ==> exec_stmt(
            st,
            StmtView::ExprStmt(ExprView::Call(n)),
            depth,
        ) == exec_block(st, st.procs[n], 0, (depth - 1) as nat),
{
}

/// A `say` adds exactly one line: the renderings of its expressions joined
/// with no separator.
pub proof fn lemma_say_one_line(st: State, es: Seq<ExprView>, depth: nat)
    ensures
        exec_stmt(st, StmtView::Say(es), depth).0.out == st.out.push(say_line(st.vars, st.key, es)),
        exec_stmt(st, StmtView::Say(es), depth).1 == Flow::Done,
{
}

/// An `if` runs its body exactly when its condition is a nonzero number.
pub proof fn lemma_if(st: State, c: ExprView, b: Seq<StmtView>, depth: nat)
    ensures
        truthy(eval(st.vars, st.key, c)) ==> exec_stmt(st, StmtView::If(c, b), depth) == exec_block(st, b, 0, depth),
        !truthy(eval(st.vars, st.key, c)) ==> exec_stmt(st, StmtView::If(c, b), depth) == (st, Flow::Done),
{
}

/// `key-pressed <name>`, for a name other than `any`, is 1 exactly when the
/// key recorded last is `name`, and 0 otherwise, also when no key was recorded.
pub proof fn lemma_key_pressed(vars: Map<Seq<char>, Val>, key: Option<Seq<char>>, name: Seq<char>)
    requires
        name != "any"@,
    ensures
        eval(vars, key, ExprView::Key(name)) == (if key == Some(name) {
            Val::Num(1)
        } else {
            Val::Num(0)
        }),
        key is None ==> eval(vars, key, ExprView::Key(name)) == Val::Num(0),
{
}

/// Outside a `forever` loop no key has been recorded: every named
/// `key-pressed` is 0 and `key-pressed "any"` is empty text.
pub proof fn lemma_no_key_outside_loop(vars: Map<Seq<char>, Val>, name: Seq<char>)
    ensures
        name != "any"@ ==> eval(vars, fresh_state().key, ExprView::Key(name)) == Val::Num(0),
        name == "any"@ ==> eval(vars, fresh_state().key, ExprView::Key(name)) == Val::Txt(seq![]),
{
}

/// Running a script depends on the script alone: two fresh interpreters that
/// run it end in the same state, with the same output and the same outcome.
pub proof fn lemma_fresh_runs_agree(a: State, b: State, prog: Seq<StmtView>)
    requires
        a == fresh_state(),
        b == fresh_state(),
    ensures
        exec_block(a, prog, 0, MAX_CALL_DEPTH as nat) == exec_block(b, prog, 0, MAX_CALL_DEPTH as nat),
{
}

/// Runs a parsed script: a variable environment, a procedure table, the key
/// recorded by the enclosing `forever` loop, and the lines printed so far.
///
/// Procedure calls may nest at most `MAX_CALL_DEPTH` deep: a run that goes
/// deeper stops with `Outcome::TooDeep` rather than exhausting the stack.
pub struct Interpreter<'a> {
    env: Table<Value>,
    funcs: Table<&'a [Stmt]>,
    key: Option<String>,
    output: Vec<String>,
}

/// The printed lines as character sequences.
pub open spec fn lines_view(v: Seq<String>) -> Seq<Seq<char>> {
    Seq::new(v.len(), |i: int| v[i]@)
}

/// The recorded key as a character sequence.
pub open spec fn key_view(k: Option<String>) -> Option<Seq<char>> {
    match k {
        Some(s) => Some(s@),
        None => None,
    }
}

impl<'a> View for Interpreter<'a> {
    type V = State;

    closed spec fn view(&self) -> State {
        State {
            vars: self.env@.map_values(|v: Value| v@),
            procs: self.funcs@.map_values(|b: &'a [Stmt]| stmts_view(b@)),
            key: key_view(self.key),
            out: lines_view(self.output@),
        }
    }
}

impl<'a> Interpreter<'a> {
    /// An interpreter with no variables, no procedures, no key and no output.
    pub fn new() -> (r: Self)
        ensures
            r@ == fresh_state(),
    {
        let r = Interpreter { env: Table::new(), funcs: Table::new(), key: None, output: Vec::new() };
        assert(r@.vars =~= Map::empty());
        assert(r@.procs =~= Map::empty());
        assert(r@.out =~= seq![]);
        r
    }

    /// Runs a script's statements from the current state.
    pub fn run(&mut self, stmts: &'a [Stmt]) -> (r: Outcome<'a>)
        ensures
            (final(self)@, r@) == exec_block(old(self)@, stmts_view(stmts@), 0, MAX_CALL_DEPTH as nat),
    {
        self.exec_block(stmts, MAX_CALL_DEPTH)
    }

    /// One pass of a `forever` loop: records `key` (what the keyboard gave
    /// on this poll, `None` for nothing) and runs the loop's body once.
    pub fn step_forever(&mut self, body: &'a [Stmt], key: Option<String>) -> (r: Outcome<'a>)
        ensures
            (final(self)@, r@) == exec_block(
                State { key: key_view(key), ..old(self)@ },
                stmts_view(body@),
                0,
                MAX_CALL_DEPTH as nat,
            ),
    {
        self.key = key;
        self.exec_block(body, MAX_CALL_DEPTH)
    }

    /// Hands over the lines printed so far, leaving none.
    pub fn take_output(&mut self) -> (r: Vec<String>)
        ensures
            lines_view(r@) == old(self)@.out,
            final(self)@ == (State { out: seq![], ..old(self)@ }),
    {
        let mut r: Vec<String> = Vec::new();
        core::mem::swap(&mut r, &mut self.output);
        assert(lines_view(self.output@) =~= seq![]);
        r
    }

    fn key_pressed(&self, name: &String) -> (r: Value)
        ensures
            r@ == key_value(self@.key, name@),
    {
        if same_text(name.as_str(), "any") {
            match &self.key {
                Some(k) => Value::Text(k.clone()),
                None => Value::Text(String::new()),
            }
        } else {
            match &self.key {
                Some(k) => if *k == *name {
                    Value::Number(1)
                } else {
                    Value::Number(0)
                },
                None => Value::Number(0),
            }
        }
    }

    /// The value of an expression in the current state; see `eval`.
    /// Evaluation never fails and changes nothing.
    pub fn eval(&self, expr: &Expr) -> (r: Value)
        ensures
            r@ == eval(self@.vars, self@.key, expr@),
        decreases expr,
    {
        match expr {
            Expr::Value(v) => v.duplicate(),
            Expr::Var(name) => match self.env.get(name) {
                Some(v) => v.duplicate(),
                None => Value::Number(0),
            },
            Expr::BinaryOp(l, op, r) => {
                let a = self.eval(l);
                let b = self.eval(r);
                match (a, b) {
                    (Value::Number(x), Value::Number(y)) => Value::Number(apply_op(op.as_str(), x, y)),
                    _ => Value::Number(0),
                }
            },
            Expr::FuncCall(_) => Value::Number(0),
            Expr::KeyPressed(k) => self.key_pressed(k),
        }
    }

    fn set_var(&mut self, name: &String, v: Value)
        ensures
            final(self)@ == (State { vars: old(self)@.vars.insert(name@, v@), ..old(self)@ }),
    {
        self.env.set(name.clone(), v);
        assert(self@.vars =~= old(self)@.vars.insert(name@, v@));
    }

    fn say(&mut self, exprs: &Vec<Expr>)
        ensures
            final(self)@ == (State {
                out: old(self)@.out.push(say_line(old(self)@.vars, old(self)@.key, exprs_view(exprs@))),
                ..old(self)@
            }),
    {
        let ghost es = exprs_view(exprs@);
        let mut line = String::new();
        let mut i: usize = 0;
        while i < exprs.len()
            invariant
                i <= exprs@.len(),
                es == exprs_view(exprs@),
                line@ == say_line(self@.vars, self@.key, es.subrange(0, i as int)),
            decreases exprs@.len() - i,
        {
            let v = self.eval(&exprs[i]);
            let text = render_value(&v);
            line.append(text.as_str());
            assert(es.subrange(0, i + 1).drop_last() =~= es.subrange(0, i as int));
            i = i + 1;
        }
        assert(es.subrange(0, exprs@.len() as int) =~= es);
        let ghost before = self.output@;
        self.output.push(line);
        assert(lines_view(self.output@) =~= lines_view(before).push(line@));
    }

    fn exec_block(&mut self, b: &'a [Stmt], depth: usize) -> (r: Outcome<'a>)
        ensures
            (final(self)@, r@) == exec_block(old(self)@, stmts_view(b@), 0, depth as nat),
        decreases depth, b@, 1nat,
    {
        let ghost bv = stmts_view(b@);
        let ghost goal = exec_block(self@, bv, 0, depth as nat);
        let mut i: usize = 0;
        while i < b.len()
            invariant
                goal == exec_block(old(self)@, bv, 0, depth as nat),
                i <= b@.len(),
                bv == stmts_view(b@),
                exec_block(self@, bv, i as int, depth as nat) == goal,
            decreases b@.len() - i,
        {
            let f = self.exec_stmt(&b[i], depth);
            if !matches!(f, Outcome::Finished) {
                return f;
            }
            i = i + 1;
        }
        Outcome::Finished
    }

    fn exec_repeat(&mut self, body: &'a Vec<Stmt>, n: u64, depth: usize) -> (r: Outcome<'a>)
        ensures
            (final(self)@, r@) == repeat_body(old(self)@, stmts_view(body@), n as nat, depth as nat),
        decreases depth, body@, 2nat,
    {
        let ghost bv = stmts_view(body@);
        let ghost goal = repeat_body(self@, bv, n as nat, depth as nat);
        let mut i: u64 = 0;
        while i < n
            invariant
                goal == repeat_body(old(self)@, bv, n as nat, depth as nat),
                i <= n,
                bv == stmts_view(body@),
                repeat_body(self@, bv, (n - i) as nat, depth as nat) == goal,
            decreases n - i,
        {
            let f = self.exec_block(body.as_slice(), depth);
            if !matches!(f, Outcome::Finished) {
                return f;
            }
            i = i + 1;
        }
        Outcome::Finished
    }

    fn exec_stmt(&mut self, stmt: &'a Stmt, depth: usize) -> (r: Outcome<'a>)
        ensures
            (final(self)@, r@) == exec_stmt(old(self)@, stmt@, depth as nat),
        decreases depth, stmt, 0nat,
    {
        proof {
            lemma_body_view(*stmt);
        }
        match stmt {
            Stmt::Make(name, value, body) => {
                match value {
                    Some(e) => {
                        let v = self.eval(e);
                        self.set_var(name, v);
                    },
                    None => {},
                }
                if body.len() > 0 {
                    let ghost before = self@;
                    self.funcs.set(name.clone(), body.as_slice());
                    assert(self@.procs =~= before.procs.insert(name@, stmts_view(body@)));
                }
                Outcome::Finished
            },
            Stmt::Change(name, e) => {
                let v = self.eval(e);
                self.set_var(name, v);
                Outcome::Finished
            },
            Stmt::Say(exprs) => {
                self.say(exprs);
                Outcome::Finished
            },
            Stmt::If(cond, body) => {
                let c = self.eval(cond);
                if matches!(c, Value::Number(n) if n != 0) {
                    self.exec_block(body.as_slice(), depth)
                } else {
                    Outcome::Finished
                }
            },
            Stmt::Repeat(times, body) => {
                let n: u64 = match self.eval(times) {
                    Value::Number(k) => if k > 0 {
                        k as u64
                    } else {
                        0
                    },
                    Value::Text(_) => 0,
                };
                self.exec_repeat(body, n, depth)
            },
            Stmt::Forever(body) => Outcome::Looping(body.as_slice()),
            Stmt::ExprStmt(Expr::FuncCall(name)) => {
                let found: Option<&'a [Stmt]> = match self.funcs.get(name) {
                    Some(b) => Some(*b),
                    None => None,
                };
                match found {
                    None => Outcome::Finished,
                    Some(b) => if depth == 0 {
                        Outcome::TooDeep
                    } else {
                        self.exec_block(b, depth - 1)
                    },
                }
            },
            Stmt::ExprStmt(_) => Outcome::Finished,
        }
    }
}

} // verus!
