//! The expressions of element-wise layers, such as `add(@0,mul(@1,2.0))`:
//! their grammar, and the tree they read as.
use vstd::prelude::*;

use crate::op::conf::ExprConf;
use crate::text::{
    digit_run, is_digit, lemma_digit_run_bounds, matches_at, scan_usize, spec_scan_usize,
    starts_with_at, string_from_chars, chars_of,
};

verus! {

/// What a node of an expression does.
#[derive(Debug, Clone, PartialEq)]
pub enum ExprOp {
    Add,
    Mul,
    Sub,
    Neg,
    /// The input tensor with this index.
    Input(usize),
    /// A number, as the text that writes it.
    Constant(String),
}

/// A node of an expression and its operands.
#[derive(Debug)]
pub struct Expr {
    pub op: ExprOp,
    pub children: Vec<Expr>,
}

/// What a node of an expression does, with text as characters.
pub enum OpModel {
    Add,
    Mul,
    Sub,
    Neg,
    Input(usize),
    Constant(Seq<char>),
}

/// An expression tree.
pub struct ExprModel {
    pub op: OpModel,
    pub children: Seq<ExprModel>,
}

/// The outcome of reading something at a position: what was read and the
/// position after it; or no match there, which lets another reading be
/// tried; or a malformed number, which ends the whole reading.
pub enum Parsed<T> {
    Done(T, int),
    Error,
    Failure,
}

/// The outcome of reading an expression at a position of the text.
pub enum Outcome {
    Done(Expr, usize),
    Error,
    Failure,
}

/// The outcome of reading a list of operands.
pub enum ListOutcome {
    Done(Vec<Expr>, usize),
    Error,
    Failure,
}

/// Why a text is not an expression.
#[derive(Debug, Clone, Copy, PartialEq, Eq, Structural)]
pub enum ExprError {
    /// No expression starts the text.
    NoMatch,
    /// A number has an exponent marker without digits after it.
    BadNumber,
}

/// `e` is the tree `m`.
pub open spec fn models(e: Expr, m: ExprModel) -> bool
    decreases e,
{
    &&& (match e.op {
        ExprOp::Add => m.op == OpModel::Add,
        ExprOp::Mul => m.op == OpModel::Mul,
        ExprOp::Sub => m.op == OpModel::Sub,
        ExprOp::Neg => m.op == OpModel::Neg,
        ExprOp::Input(k) => m.op == OpModel::Input(k),
        ExprOp::Constant(s) => m.op == OpModel::Constant(s@),
    })
    &&& e.children@.len() == m.children.len()
    &&& forall|k: int| 0 <= k < e.children@.len() ==> models(#[trigger] e.children@[k], m.children[k])
}

/// `t` holds `c` at position `i`.
pub open spec fn char_at(t: Seq<char>, i: int, c: char) -> bool {
    0 <= i < t.len() && t[i] == c
}

/// The position after an optional sign at `i`.
pub open spec fn after_sign(t: Seq<char>, i: int) -> int {
    if char_at(t, i, '+') || char_at(t, i, '-') {
        i + 1
    } else {
        i
    }
}

/// Where the number written at position `i` ends: an optional sign; digits,
/// optionally followed by a point and more digits, or a point followed by
/// digits; then optionally `e` or `E`, an optional sign, and digits, which
/// must be there once the `e` is.
pub open spec fn spec_number_end(t: Seq<char>, i: int) -> Parsed<()> {
    let a = after_sign(t, i);
    let d = digit_run(t, a);
    let mantissa_end = if d > 0 {
        if char_at(t, a + d, '.') {
            a + d + 1 + digit_run(t, a + d + 1)
        } else {
            a + d
        }
    } else if char_at(t, a, '.') && digit_run(t, a + 1) > 0 {
        a + 1 + digit_run(t, a + 1)
    } else {
        -1
    };
    if mantissa_end < 0 {
        Parsed::Error
    } else if char_at(t, mantissa_end, 'e') || char_at(t, mantissa_end, 'E') {
        let s = after_sign(t, mantissa_end + 1);
        if digit_run(t, s) > 0 {
            Parsed::Done((), s + digit_run(t, s))
        } else {
            Parsed::Failure
        }
    } else {
        Parsed::Done((), mantissa_end)
    }
}

/// The operation named at position `i`, if one is.
pub open spec fn spec_call_op(t: Seq<char>, i: int) -> Option<OpModel> {
    if starts_with_at(t, i, "add"@) {
        Some(OpModel::Add)
    } else if starts_with_at(t, i, "mul"@) {
        Some(OpModel::Mul)
    } else if starts_with_at(t, i, "sub"@) {
        Some(OpModel::Sub)
    } else if starts_with_at(t, i, "neg"@) {
        Some(OpModel::Neg)
    } else {
        None
    }
}

/// The expression at position `i`: the first of these that matches, in
/// this order: `@` and an index; a number; `add`, `mul` or `sub` with a
/// parenthesised list of operands; `neg` with one parenthesised operand.
pub open spec fn spec_expr(t: Seq<char>, i: int) -> Parsed<ExprModel>
    decreases t.len() - i, 0int,
{
    if i < 0 || i > t.len() {
        Parsed::Error
    } else if char_at(t, i, '@') && spec_scan_usize(t, i + 1) is Some {
        let (k, e) = spec_scan_usize(t, i + 1)->0;
        Parsed::Done(ExprModel { op: OpModel::Input(k), children: Seq::empty() }, e)
    } else {
        match spec_number_end(t, i) {
            Parsed::Done(_, e) => Parsed::Done(
                ExprModel { op: OpModel::Constant(t.subrange(i, e)), children: Seq::empty() },
                e,
            ),
            Parsed::Failure => Parsed::Failure,
            Parsed::Error => match spec_call_op(t, i) {
                None => Parsed::Error,
                Some(op) => if !char_at(t, i + 3, '(') {
                    Parsed::Error
                } else if op == OpModel::Neg {
                    match spec_expr(t, i + 4) {
                        Parsed::Done(c, j) => if char_at(t, j, ')') {
                            Parsed::Done(ExprModel { op, children: seq![c] }, j + 1)
                        } else {
                            Parsed::Error
                        },
                        Parsed::Error => Parsed::Error,
                        Parsed::Failure => Parsed::Failure,
                    }
                } else {
                    match spec_list(t, i + 4) {
                        Parsed::Done(cs, j) => if char_at(t, j, ')') {
                            Parsed::Done(ExprModel { op, children: cs }, j + 1)
                        } else {
                            Parsed::Error
                        },
                        Parsed::Error => Parsed::Error,
                        Parsed::Failure => Parsed::Failure,
                    }
                },
            },
        }
    }
}

/// A list of operands separated by commas, possibly empty, at position `i`.
pub open spec fn spec_list(t: Seq<char>, i: int) -> Parsed<Seq<ExprModel>>
    decreases t.len() - i, 1int,
{
    if i < 0 || i > t.len() {
        Parsed::Error
    } else {
        match spec_expr(t, i) {
            Parsed::Error => Parsed::Done(Seq::empty(), i),
            Parsed::Failure => Parsed::Failure,
            Parsed::Done(e, j) => if j <= i || j > t.len() {
                Parsed::Error
            } else {
                spec_list_more(t, j, seq![e])
            },
        }
    }
}

/// The rest of a list after the operands `acc`, at position `i`: a comma
/// and another operand, as long as there are; a comma not followed by an
/// operand is left unread.
pub open spec fn spec_list_more(t: Seq<char>, i: int, acc: Seq<ExprModel>) -> Parsed<
    Seq<ExprModel>,
>
    decreases t.len() - i, 2int,
{
    if i < 0 || i > t.len() {
        Parsed::Error
    } else if !char_at(t, i, ',') {
        Parsed::Done(acc, i)
    } else {
        match spec_expr(t, i + 1) {
            Parsed::Error => Parsed::Done(acc, i),
            Parsed::Failure => Parsed::Failure,
            Parsed::Done(e, j) => if j <= i || j > t.len() {
                Parsed::Error
            } else {
                spec_list_more(t, j, acc.push(e))
            },
        }
    }
}

/// A number read at `i` ends after `i` and within the text.
pub proof fn lemma_number_bounds(t: Seq<char>, i: int)
    requires
        0 <= i <= t.len(),
    ensures
        spec_number_end(t, i) matches Parsed::Done(_, j) ==> i < j <= t.len(),
{
    let a = after_sign(t, i);
    lemma_digit_run_bounds(t, a);
    let d = digit_run(t, a);
    if a + d < t.len() {
        lemma_digit_run_bounds(t, a + d + 1);
    }
    if a < t.len() {
        lemma_digit_run_bounds(t, a + 1);
    }
    let mend = if d > 0 {
        if char_at(t, a + d, '.') {
            a + d + 1 + digit_run(t, a + d + 1)
        } else {
            a + d
        }
    } else if char_at(t, a, '.') && digit_run(t, a + 1) > 0 {
        a + 1 + digit_run(t, a + 1)
    } else {
        -1
    };
    if mend >= 0 && (char_at(t, mend, 'e') || char_at(t, mend, 'E')) {
        let s = after_sign(t, mend + 1);
        lemma_digit_run_bounds(t, s);
    }
}

/// An expression read at `i` ends after `i` and within the text.
pub proof fn lemma_expr_bounds(t: Seq<char>, i: int)
    ensures
        spec_expr(t, i) matches Parsed::Done(_, j) ==> i < j <= t.len(),
    decreases t.len() - i, 0int,
{
    if 0 <= i <= t.len() {
        if i + 1 <= t.len() {
            lemma_digit_run_bounds(t, i + 1);
        }
        lemma_number_bounds(t, i);
        if i + 4 <= t.len() {
            lemma_expr_bounds(t, i + 4);
            lemma_list_bounds(t, i + 4);
        }
    }
}

/// A list read at `i` ends within the text, not before `i`.
pub proof fn lemma_list_bounds(t: Seq<char>, i: int)
    ensures
        spec_list(t, i) matches Parsed::Done(_, j) ==> i <= j <= t.len(),
    decreases t.len() - i, 1int,
{
    if 0 <= i <= t.len() {
        lemma_expr_bounds(t, i);
        if let Parsed::Done(e, j) = spec_expr(t, i) {
            if j > i && j <= t.len() {
                lemma_more_bounds(t, j, seq![e]);
            }
        }
    }
}

/// The rest of a list read at `i` ends within the text, not before `i`.
pub proof fn lemma_more_bounds(t: Seq<char>, i: int, acc: Seq<ExprModel>)
    ensures
        spec_list_more(t, i, acc) matches Parsed::Done(_, j) ==> i <= j <= t.len(),
    decreases t.len() - i, 2int,
{
    if 0 <= i <= t.len() && char_at(t, i, ',') {
        lemma_expr_bounds(t, i + 1);
        if let Parsed::Done(e, j) = spec_expr(t, i + 1) {
            if j > i && j <= t.len() {
                lemma_more_bounds(t, j, acc.push(e));
            }
        }
    }
}

/// The operands `es` are the trees `ms`.
pub open spec fn models_all(es: Seq<Expr>, ms: Seq<ExprModel>) -> bool {
    &&& es.len() == ms.len()
    &&& forall|k: int| 0 <= k < es.len() ==> models(#[trigger] es[k], ms[k])
}

/// The position just after the run of digits at `i`.
fn skip_digits(t: &[char], i: usize) -> (r: usize)
    requires
        i <= t@.len(),
    ensures
        r == i + digit_run(t@, i as int),
{
    proof {
        lemma_digit_run_bounds(t@, i as int);
    }
    let mut j = i;
    while j < t.len() && '0' <= t[j] && t[j] <= '9'
        invariant
            i <= j <= i + digit_run(t@, i as int),
            i + digit_run(t@, i as int) <= t@.len(),
            forall|k: int| i <= k < i + digit_run(t@, i as int) ==> is_digit(#[trigger] t@[k]),
            i + digit_run(t@, i as int) < t@.len() ==> !is_digit(t@[i + digit_run(t@, i as int)]),
        decreases t.len() - j,
    {
        j = j + 1;
    }
    j
}

/// The position after an optional sign at `i`.
fn skip_sign(t: &[char], i: usize) -> (r: usize)
    requires
        i <= t@.len(),
    ensures
        r == after_sign(t@, i as int),
{
    if i < t.len() && (t[i] == '+' || t[i] == '-') {
        i + 1
    } else {
        i
    }
}

/// Where a number written at `i` ends, if one is written there.
enum NumberEnd {
    Done(usize),
    Error,
    Failure,
}

fn number_end(t: &[char], i: usize) -> (r: NumberEnd)
    requires
        i <= t@.len(),
    ensures
        match spec_number_end(t@, i as int) {
            Parsed::Done(_, e) => r == NumberEnd::Done(e as usize),
            Parsed::Error => r == NumberEnd::Error,
            Parsed::Failure => r == NumberEnd::Failure,
        },
{
    proof {
        lemma_number_bounds(t@, i as int);
    }
    let a = skip_sign(t, i);
    let b = skip_digits(t, a);
    let mantissa_end = if b > a {
        if b < t.len() && t[b] == '.' {
            skip_digits(t, b + 1)
        } else {
            b
        }
    } else if a < t.len() && t[a] == '.' {
        let c = skip_digits(t, a + 1);
        if c > a + 1 {
            c
        } else {
            return NumberEnd::Error;
        }
    } else {
        return NumberEnd::Error;
    };
    if mantissa_end < t.len() && (t[mantissa_end] == 'e' || t[mantissa_end] == 'E') {
        let s = skip_sign(t, mantissa_end + 1);
        let e = skip_digits(t, s);
        if e > s {
            NumberEnd::Done(e)
        } else {
            NumberEnd::Failure
        }
    } else {
        NumberEnd::Done(mantissa_end)
    }
}

/// Reads the expression at position `i` of `t`.
fn parse_expr(t: &[char], i: usize) -> (r: Outcome)
    requires
        i <= t@.len(),
    ensures
        match spec_expr(t@, i as int) {
            Parsed::Done(m, j) => r matches Outcome::Done(e, k) && k == j && models(e, m),
            Parsed::Error => r is Error,
            Parsed::Failure => r is Failure,
        },
    decreases t@.len() - i, 0int,
{
    let ghost sp = spec_expr(t@, i as int);
    proof {
        lemma_expr_bounds(t@, i as int);
    }
    if i < t.len() && t[i] == '@' {
        match scan_usize(t, i + 1) {
            Some((k, e)) => {
                return Outcome::Done(Expr { op: ExprOp::Input(k), children: Vec::new() }, e);
            },
            None => {},
        }
    }
    match number_end(t, i) {
        NumberEnd::Done(e) => {
            let text = string_from_chars(&t[i..e]);
            return Outcome::Done(Expr { op: ExprOp::Constant(text), children: Vec::new() }, e);
        },
        NumberEnd::Failure => {
            return Outcome::Failure;
        },
        NumberEnd::Error => {},
    }
    let op = if matches_at(t, i, "add") {
        ExprOp::Add
    } else if matches_at(t, i, "mul") {
        ExprOp::Mul
    } else if matches_at(t, i, "sub") {
        ExprOp::Sub
    } else if matches_at(t, i, "neg") {
        ExprOp::Neg
    } else {
        return Outcome::Error;
    };
    if !(t.len() - i > 3 && t[i + 3] == '(') {
        return Outcome::Error;
    }
    if let ExprOp::Neg = op {
        let ghost sc = spec_expr(t@, i + 4);
        proof {
            lemma_expr_bounds(t@, i + 4);
        }
        match parse_expr(t, i + 4) {
            Outcome::Done(c, j) => {
                if j < t.len() && t[j] == ')' {
                    let ghost cm = sc->Done_0;
                    let children = vec![c];
                    proof {
                        assert(children@[0] == c);
                        assert(models_all(children@, seq![cm]));
                    }
                    Outcome::Done(Expr { op, children }, j + 1)
                } else {
                    Outcome::Error
                }
            },
            Outcome::Error => Outcome::Error,
            Outcome::Failure => Outcome::Failure,
        }
    } else {
        let ghost sl = spec_list(t@, i + 4);
        proof {
            lemma_list_bounds(t@, i + 4);
        }
        match parse_list(t, i + 4) {
            ListOutcome::Done(children, j) => {
                if j < t.len() && t[j] == ')' {
                    Outcome::Done(Expr { op, children }, j + 1)
                } else {
                    Outcome::Error
                }
            },
            ListOutcome::Error => Outcome::Error,
            ListOutcome::Failure => Outcome::Failure,
        }
    }
}

/// Reads the list of operands at position `i` of `t`.
fn parse_list(t: &[char], i: usize) -> (r: ListOutcome)
    requires
        i <= t@.len(),
    ensures
        match spec_list(t@, i as int) {
            Parsed::Done(ms, j) => r matches ListOutcome::Done(es, k) && k == j && models_all(
                es@,
                ms,
            ),
            Parsed::Error => r is Error,
            Parsed::Failure => r is Failure,
        },
    decreases t@.len() - i, 1int,
{
    let ghost se = spec_expr(t@, i as int);
    proof {
        lemma_expr_bounds(t@, i as int);
    }
    match parse_expr(t, i) {
        Outcome::Done(e, j) => {
            let ghost m = se->Done_0;
            let acc = vec![e];
            proof {
                assert(acc@[0] == e);
                assert(models_all(acc@, seq![m]));
            }
            let ghost ms = seq![m];
            parse_list_more(t, j, acc, Ghost(ms))
        },
        Outcome::Error => ListOutcome::Done(Vec::new(), i),
        Outcome::Failure => ListOutcome::Failure,
    }
}

/// Reads the rest of a list of operands, after `acc`, at position `i`.
fn parse_list_more(t: &[char], i: usize, acc: Vec<Expr>, Ghost(accm): Ghost<Seq<ExprModel>>) -> (r:
    ListOutcome)
    requires
        i <= t@.len(),
        models_all(acc@, accm),
    ensures
        match spec_list_more(t@, i as int, accm) {
            Parsed::Done(ms, j) => r matches ListOutcome::Done(es, k) && k == j && models_all(
                es@,
                ms,
            ),
            Parsed::Error => r is Error,
            Parsed::Failure => r is Failure,
        },
    decreases t@.len() - i, 2int,
{
    if !(i < t.len() && t[i] == ',') {
        return ListOutcome::Done(acc, i);
    }
    let ghost se = spec_expr(t@, i + 1);
    proof {
        lemma_expr_bounds(t@, i + 1);
    }
    match parse_expr(t, i + 1) {
        Outcome::Done(e, j) => {
            let ghost m = se->Done_0;
            let ghost before = acc@;
            let mut acc = acc;
            acc.push(e);
            proof {
                assert forall|k: int| 0 <= k < acc@.len() implies models(
                    #[trigger] acc@[k],
                    accm.push(m)[k],
                ) by {
                    if k < accm.len() {
                        assert(acc@[k] == before[k]);
                    }
                }
            }
            let ghost ms = accm.push(m);
            parse_list_more(t, j, acc, Ghost(ms))
        },
        Outcome::Error => ListOutcome::Done(acc, i),
        Outcome::Failure => ListOutcome::Failure,
    }
}

impl Expr {
    /// Reads an expression at the start of `input`; what follows it is not
    /// read.
    pub fn parse(input: &str) -> (r: Result<Expr, ExprError>)
        ensures
            match spec_expr(input@, 0) {
                Parsed::Done(m, _) => r matches Ok(e) && models(e, m),
                Parsed::Error => r == Err::<Expr, ExprError>(ExprError::NoMatch),
                Parsed::Failure => r == Err::<Expr, ExprError>(ExprError::BadNumber),
            },
    {
        let t = chars_of(input);
        match parse_expr(t.as_slice(), 0) {
            Outcome::Done(e, _) => Ok(e),
            Outcome::Error => Err(ExprError::NoMatch),
            Outcome::Failure => Err(ExprError::BadNumber),
        }
    }
}

/// A layer that computes an expression of its inputs, element by element.
pub struct ExprLayer {
    pub ast: Expr,
}

impl ExprConf {
    /// The layer of the expression this setting writes, once it is read.
    pub fn to_layer(self) -> (r: Result<ExprLayer, ExprError>)
        ensures
            match spec_expr(self.expr@, 0) {
                Parsed::Done(m, _) => r matches Ok(l) && models(l.ast, m),
                Parsed::Error => r is Err && r->Err_0 == ExprError::NoMatch,
                Parsed::Failure => r is Err && r->Err_0 == ExprError::BadNumber,
            },
    {
        match Expr::parse(self.expr.as_str()) {
            Ok(ast) => Ok(ExprLayer { ast }),
            Err(e) => Err(e),
        }
    }
}


/// The characters of `t` from `i` up to `j` are all decimal digits.
pub open spec fn digits_between(t: Seq<char>, i: int, j: int) -> bool {
    &&& 0 <= i <= j <= t.len()
    &&& forall|k: int| i <= k < j ==> is_digit(#[trigger] t[k])
}

/// Position `j` is the end of `t`, or holds a character that cannot carry
/// a number on: not a digit, a point, nor an exponent mark.
pub open spec fn number_stops_at(t: Seq<char>, j: int) -> bool {
    j == t.len() || !(is_digit(t[j]) || t[j] == '.' || t[j] == 'e' || t[j] == 'E')
}

/// A run of digits from `i` up to a position that holds no digit is read
/// whole.
proof fn lemma_digit_run_exact(t: Seq<char>, i: int, j: int)
    requires
        digits_between(t, i, j),
        j == t.len() || !is_digit(t[j]),
    ensures
        digit_run(t, i) == j - i,
    decreases j - i,
{
    if i < j {
        lemma_digit_run_exact(t, i + 1, j);
    }
}

/// A number is read whole, as a constant that holds exactly its text. The
/// number runs from `i` to `x`: an optional sign `+` or `-` (ending at `a`);
/// digits up to `w`; then either nothing more (`m == w`, with at least one
/// digit) or a point and digits up to `m` (with a digit before or after the
/// point); then either nothing more (`x == m`) or `e` or `E`, an optional
/// sign `+` or `-` (ending at `s`), and at least one digit up to `x`. After
/// it comes the end of the text or a character that cannot carry a number
/// on.
pub proof fn law_number_read_whole(t: Seq<char>, i: int, a: int, w: int, m: int, s: int, x: int)
    requires
        0 <= i,
        a == i || (a == i + 1 && (char_at(t, i, '+') || char_at(t, i, '-'))),
        digits_between(t, a, w),
        (m == w && w > a) || (char_at(t, w, '.') && digits_between(t, w + 1, m) && (w > a || m
            > w + 1)),
        x == m || ((char_at(t, m, 'e') || char_at(t, m, 'E')) && (s == m + 1 || (s == m + 2 && (
        char_at(t, m + 1, '+') || char_at(t, m + 1, '-')))) && digits_between(t, s, x) && x > s),
        x <= t.len(),
        number_stops_at(t, x),
    ensures
        spec_number_end(t, i) == Parsed::<()>::Done((), x),
        spec_expr(t, i) == Parsed::<ExprModel>::Done(
            ExprModel { op: OpModel::Constant(t.subrange(i, x)), children: Seq::empty() },
            x,
        ),
{
    // The sign, if any, is read as one.
    if a == i {
        assert(t[i] == '.' || is_digit(t[i]));
    }
    assert(after_sign(t, i) == a);
    // The digits before the point.
    if m == w {
        if x == m {
            lemma_digit_run_exact(t, a, w);
        } else {
            assert(!is_digit(t[w]));
            lemma_digit_run_exact(t, a, w);
        }
    } else {
        assert(!is_digit(t[w]));
        lemma_digit_run_exact(t, a, w);
        // The digits after the point.
        if x == m {
            if m < t.len() {
                assert(!is_digit(t[m]));
            }
        } else {
            assert(!is_digit(t[m]));
        }
        lemma_digit_run_exact(t, w + 1, m);
    }
    if x == m {
        if m < t.len() {
            assert(t[m] != 'e' && t[m] != 'E');
        }
    } else {
        // The exponent, with its sign.
        if s == m + 1 {
            assert(is_digit(t[m + 1]));
        }
        assert(after_sign(t, m + 1) == s);
        lemma_digit_run_exact(t, s, x);
    }
    assert(!char_at(t, i, '@'));
}


/// A call read at some position, given what its operands read as: the
/// operation applied to them when a closing bracket follows.
pub open spec fn call_of(
    t: Seq<char>,
    op: OpModel,
    operands: Parsed<Seq<ExprModel>>,
) -> Parsed<ExprModel> {
    match operands {
        Parsed::Done(cs, j) => if char_at(t, j, ')') {
            Parsed::Done(ExprModel { op, children: cs }, j + 1)
        } else {
            Parsed::Error
        },
        Parsed::Error => Parsed::Error,
        Parsed::Failure => Parsed::Failure,
    }
}

/// Each operation is read from its own name: the letters `add`, `mul`,
/// `sub` and `neg` followed by `(` read as addition, multiplication,
/// subtraction and negation of the operands inside the brackets (a
/// comma-separated list, or one operand for `neg`); `@` followed by digits
/// reads as the input with that index.
pub proof fn law_operations_by_name(t: Seq<char>, i: int)
    requires
        0 <= i,
    ensures
        i + 4 <= t.len() && t[i] == 'a' && t[i + 1] == 'd' && t[i + 2] == 'd' && t[i + 3] == '('
            ==> spec_expr(t, i) == call_of(t, OpModel::Add, spec_list(t, i + 4)),
        i + 4 <= t.len() && t[i] == 'm' && t[i + 1] == 'u' && t[i + 2] == 'l' && t[i + 3] == '('
            ==> spec_expr(t, i) == call_of(t, OpModel::Mul, spec_list(t, i + 4)),
        i + 4 <= t.len() && t[i] == 's' && t[i + 1] == 'u' && t[i + 2] == 'b' && t[i + 3] == '('
            ==> spec_expr(t, i) == call_of(t, OpModel::Sub, spec_list(t, i + 4)),
        i + 4 <= t.len() && t[i] == 'n' && t[i + 1] == 'e' && t[i + 2] == 'g' && t[i + 3] == '('
            ==> spec_expr(t, i) == call_of(
            t,
            OpModel::Neg,
            match spec_expr(t, i + 4) {
                Parsed::Done(c, j) => Parsed::Done(seq![c], j),
                Parsed::Error => Parsed::Error,
                Parsed::Failure => Parsed::Failure,
            },
        ),
        char_at(t, i, '@') ==> (spec_scan_usize(t, i + 1) matches Some((k, e)) ==> spec_expr(t, i)
            == Parsed::<ExprModel>::Done(
            ExprModel { op: OpModel::Input(k), children: Seq::empty() },
            e,
        )),
{
    reveal_strlit("add");
    reveal_strlit("mul");
    reveal_strlit("sub");
    reveal_strlit("neg");
    if i + 4 <= t.len() && t[i + 3] == '(' {
        let w = t.subrange(i, i + 3);
        assert(w.len() == 3);
        if t[i] == 'a' && t[i + 1] == 'd' && t[i + 2] == 'd' {
            assert(w =~= "add"@);
        } else if t[i] == 'm' && t[i + 1] == 'u' && t[i + 2] == 'l' {
            assert(w[0] != "add"@[0]);
            assert(w =~= "mul"@);
        } else if t[i] == 's' && t[i + 1] == 'u' && t[i + 2] == 'b' {
            assert(w[0] != "add"@[0]);
            assert(w[0] != "mul"@[0]);
            assert(w =~= "sub"@);
        } else if t[i] == 'n' && t[i + 1] == 'e' && t[i + 2] == 'g' {
            assert(w[0] != "add"@[0]);
            assert(w[0] != "mul"@[0]);
            assert(w[0] != "sub"@[0]);
            assert(w =~= "neg"@);
        }
    }
}

} // verus!
