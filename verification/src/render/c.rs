//! Compiled formulas written as C and C++ expressions.

use vstd::prelude::*;
use vstd::string::*;
use crate::decimal::{literal_small_integer, small_integer};
use crate::formula::{BinaryOp, UnaryOp};
use crate::semantic::{Expr, MathFunction, Reference, Term, Variable, all_refer_within, lemma_call_term, refers_within, terms};
use crate::strings::{chars_of, push_char};

verus! {

/// The language an expression is written in.
#[derive(Clone, Copy, Debug, PartialEq, Eq, Structural)]
pub enum Dialect {
    C,
    Cpp,
}

/// A number as a C floating literal: kept when it has a `.` or an exponent, else
/// given a `.0` suffix.
pub open spec fn float_text(lexeme: Seq<char>) -> Seq<char> {
    if lexeme.contains('.') || lexeme.contains('e') || lexeme.contains('E') {
        lexeme
    } else {
        lexeme + ".0"@
    }
}

pub fn float_literal(lexeme: &str) -> (r: String)
    ensures
        r@ == float_text(lexeme@),
{
    let cs = chars_of(lexeme);
    let mut k: usize = 0;
    let mut found = false;
    while k < cs.len()
        invariant
            k <= cs.len(),
            cs@ == lexeme@,
            found == exists|j: int| 0 <= j < k && (cs@[j] == '.' || cs@[j] == 'e' || cs@[j] == 'E'),
        decreases cs.len() - k,
    {
        if cs[k] == '.' || cs[k] == 'e' || cs[k] == 'E' {
            found = true;
        }
        k = k + 1;
    }
    let mut r = lexeme.to_owned();
    if found {
        proof {
            let j = choose|j: int| 0 <= j < cs.len() && (cs@[j] == '.' || cs@[j] == 'e' || cs@[j] == 'E');
            assert(lexeme@.contains(lexeme@[j]));
        }
    } else {
        r.append(".0");
    }
    r
}

/// The exponent 2, 3 or 4 of a power whose exponent is that number literal.
pub open spec fn small_exponent(t: Term) -> Option<u8> {
    match t {
        Term::Number(lexeme) => literal_small_integer(vstd::utf8::encode_utf8(lexeme)),
        _ => None,
    }
}

pub fn small_integer_exponent(e: &Expr) -> (r: Option<u8>)
    ensures
        r == small_exponent(e.term()),
{
    match e {
        Expr::Number(n) => small_integer(n.lexeme.as_str().as_bytes()),
        _ => None,
    }
}

/// Binding strength: sums bind loosest, then products, unary minus, and primaries.
pub open spec fn rank(t: Term) -> int
    decreases t,
{
    match t {
        Term::Binary(BinaryOp::Add, _, _) | Term::Binary(BinaryOp::Subtract, _, _) => 0,
        Term::Binary(BinaryOp::Multiply, _, _) | Term::Binary(BinaryOp::Divide, _, _) => 1,
        Term::Unary(UnaryOp::Minus, _) => 2,
        Term::Unary(UnaryOp::Plus, operand) => rank(*operand),
        Term::Binary(BinaryOp::Power, _, right) => if small_exponent(*right) is Some { 1 } else { 3 },
        _ => 3,
    }
}

fn precedence(e: &Expr) -> (r: u8)
    ensures
        r as int == rank(e.term()),
    decreases e,
{
    match e {
        Expr::Binary { op, right, .. } => match op {
            BinaryOp::Add | BinaryOp::Subtract => 0,
            BinaryOp::Multiply | BinaryOp::Divide => 1,
            BinaryOp::Power => if small_integer_exponent(right).is_some() { 1 } else { 3 },
        },
        Expr::Unary { op, operand } => match op {
            UnaryOp::Minus => 2,
            UnaryOp::Plus => precedence(operand),
        },
        _ => 3,
    }
}

/// The name of a math routine in a dialect.
pub open spec fn math_name(d: Dialect, name: Seq<char>) -> Seq<char> {
    match d {
        Dialect::C => name,
        Dialect::Cpp => "std::"@ + name,
    }
}

pub open spec fn function_text(d: Dialect, f: MathFunction) -> Seq<char> {
    match f {
        MathFunction::Sqrt => math_name(d, "sqrt"@),
        MathFunction::Exp => math_name(d, "exp"@),
        MathFunction::Ln => math_name(d, "log"@),
        MathFunction::Log10 => math_name(d, "log10"@),
        MathFunction::Abs => if d == Dialect::Cpp { "std::abs"@ } else { "fabs"@ },
        MathFunction::Min => math_name(d, "fmin"@),
        MathFunction::Max => math_name(d, "fmax"@),
    }
}

fn append_math_name(out: &mut String, d: Dialect, name: &str)
    ensures
        final(out)@ == old(out)@ + math_name(d, name@),
{
    match d {
        Dialect::C => {},
        Dialect::Cpp => out.append("std::"),
    }
    out.append(name);
}

fn append_function_name(out: &mut String, d: Dialect, f: MathFunction)
    ensures
        final(out)@ == old(out)@ + function_text(d, f),
{
    match f {
        MathFunction::Sqrt => append_math_name(out, d, "sqrt"),
        MathFunction::Exp => append_math_name(out, d, "exp"),
        MathFunction::Ln => append_math_name(out, d, "log"),
        MathFunction::Log10 => append_math_name(out, d, "log10"),
        MathFunction::Abs => match d {
            Dialect::Cpp => out.append("std::abs"),
            Dialect::C => out.append("fabs"),
        },
        MathFunction::Min => append_math_name(out, d, "fmin"),
        MathFunction::Max => append_math_name(out, d, "fmax"),
    }
}

/// The names the expression refers to: inputs and variables by position.
pub open spec fn reference_text(r: Reference, inputs: Seq<Seq<char>>, variables: Seq<Seq<char>>) -> Seq<char> {
    match r {
        Reference::Input(i) => inputs[i as int],
        Reference::Variable(i) => variables[i as int],
    }
}

/// `n` copies of the base joined by ` * `; the first is a left operand of a product,
/// the others right operands.
pub open spec fn repeated_product(first: Seq<char>, rest: Seq<char>, n: nat) -> Seq<char>
    decreases n,
{
    if n <= 1 {
        first
    } else {
        repeated_product(first, rest, (n - 1) as nat) + " * "@ + rest
    }
}

/// The text of a term. `parent` gives the binding strength of the enclosing operator
/// and whether the term is its right operand: the term is parenthesized when it binds
/// looser, or equally as a right operand. A unary plus is not written.
pub open spec fn render_term(t: Term, inputs: Seq<Seq<char>>, variables: Seq<Seq<char>>, d: Dialect, parent: Option<(int, bool)>) -> Seq<char>
    decreases t, 2int,
{
    match t {
        Term::Unary(UnaryOp::Plus, operand) => render_term(*operand, inputs, variables, d, parent),
        _ => {
            let p = rank(t);
            let parenthesize = match parent {
                Some((q, is_right)) => p < q || (is_right && p == q),
                None => false,
            };
            if parenthesize {
                "("@ + render_body(t, inputs, variables, d) + ")"@
            } else {
                render_body(t, inputs, variables, d)
            }
        },
    }
}

/// The text of a term without enclosing parentheses.
pub open spec fn render_body(t: Term, inputs: Seq<Seq<char>>, variables: Seq<Seq<char>>, d: Dialect) -> Seq<char>
    decreases t, 1int,
{
    match t {
        Term::Number(lexeme) => float_text(lexeme),
        Term::Reference(r) => reference_text(r, inputs, variables),
        Term::Field(r, field) => reference_text(r, inputs, variables) + "."@ + field,
        Term::Unary(_, operand) => "-"@ + render_term(*operand, inputs, variables, d, Some((2, true))),
        Term::Binary(op, left, right) => match op {
            BinaryOp::Power => match small_exponent(*right) {
                Some(n) => if n == 4 {
                    "ptfkit_pow4("@ + render_term(*left, inputs, variables, d, None) + ")"@
                } else {
                    repeated_product(
                        render_term(*left, inputs, variables, d, Some((1, false))),
                        render_term(*left, inputs, variables, d, Some((1, true))),
                        n as nat,
                    )
                },
                None => math_name(d, "pow"@) + "("@ + render_term(*left, inputs, variables, d, None) + ", "@
                    + render_term(*right, inputs, variables, d, None) + ")"@,
            },
            _ => {
                let q = if op == BinaryOp::Add || op == BinaryOp::Subtract { 0int } else { 1int };
                let symbol = match op {
                    BinaryOp::Add => " + "@,
                    BinaryOp::Subtract => " - "@,
                    BinaryOp::Multiply => " * "@,
                    _ => " / "@,
                };
                render_term(*left, inputs, variables, d, Some((q, false))) + symbol
                    + render_term(*right, inputs, variables, d, Some((q, true)))
            },
        },
        Term::Call(f, args) => function_text(d, f) + "("@ + render_args(args, inputs, variables, d) + ")"@,
    }
}

/// Call arguments, each written on its own, separated by `, `.
pub open spec fn render_args(args: Seq<Term>, inputs: Seq<Seq<char>>, variables: Seq<Seq<char>>, d: Dialect) -> Seq<char>
    decreases args, 0int,
{
    if args.len() == 0 {
        seq![]
    } else if args.len() == 1 {
        render_term(args[0], inputs, variables, d, None)
    } else {
        render_args(args.drop_last(), inputs, variables, d) + ", "@ + render_term(args.last(), inputs, variables, d, None)
    }
}


proof fn lemma_all_within(args: Seq<Term>, inputs: nat, variables: nat, j: int)
    requires
        all_refer_within(args, inputs, variables),
        0 <= j < args.len(),
    ensures
        refers_within(args[j], inputs, variables),
    decreases args.len(),
{
    if j < args.len() - 1 {
        lemma_all_within(args.drop_last(), inputs, variables, j);
    }
}

pub open spec fn names_of(v: Seq<String>) -> Seq<Seq<char>> {
    v.map_values(|s: String| s@)
}

pub open spec fn variable_names_of(v: Seq<Variable>) -> Seq<Seq<char>> {
    v.map_values(|x: Variable| x.name@)
}

pub open spec fn parent_view(parent: Option<(u8, bool)>) -> Option<(int, bool)> {
    match parent {
        Some((q, right)) => Some((q as int, right)),
        None => None,
    }
}

fn append_reference(out: &mut String, r: Reference, inputs: &[String], variables: &[Variable])
    requires
        match r {
            Reference::Input(i) => i < inputs.len(),
            Reference::Variable(i) => i < variables.len(),
        },
    ensures
        final(out)@ == old(out)@ + reference_text(r, names_of(inputs@), variable_names_of(variables@)),
{
    match r {
        Reference::Input(i) => out.append(inputs[i].as_str()),
        Reference::Variable(i) => out.append(variables[i].name.as_str()),
    }
}

proof fn lemma_render_args_push(args: Seq<Term>, k: int, inputs: Seq<Seq<char>>, variables: Seq<Seq<char>>, d: Dialect)
    requires
        0 <= k < args.len(),
    ensures
        render_args(args.take(k + 1), inputs, variables, d) == if k == 0 {
            render_term(args[0], inputs, variables, d, None)
        } else {
            render_args(args.take(k), inputs, variables, d) + ", "@ + render_term(args[k], inputs, variables, d, None)
        },
{
    assert(args.take(k + 1).drop_last() == args.take(k));
    assert(args.take(k + 1).last() == args[k]);
    if k == 0 {
        assert(args.take(1)[0] == args[0]);
    }
}

/// Appends the text of a compiled formula.
pub fn write_expression(
    out: &mut String,
    e: &Expr,
    inputs: &[String],
    variables: &[Variable],
    d: Dialect,
    parent: Option<(u8, bool)>,
)
    requires
        refers_within(e.term(), inputs.len() as nat, variables.len() as nat),
    ensures
        final(out)@ == old(out)@ + render_term(e.term(), names_of(inputs@), variable_names_of(variables@), d, parent_view(parent)),
    decreases e,
{
    let ghost ins = names_of(inputs@);
    let ghost vars = variable_names_of(variables@);
    if let Expr::Unary { op: UnaryOp::Plus, operand } = e {
        write_expression(out, operand, inputs, variables, d, parent);
        return;
    }
    let p = precedence(e);
    let parenthesize = match parent {
        Some((q, is_right)) => p < q || (is_right && p == q),
        None => false,
    };
    let ghost start = out@;
    if parenthesize {
        out.append("(");
    }
    let ghost opened = out@;
    let ghost t = e.term();
    match e {
        Expr::Number(n) => {
            out.append(float_literal(n.lexeme.as_str()).as_str());
            assert(out@ == opened + render_body(t, ins, vars, d));
        },
        Expr::Reference(r) => {
            append_reference(out, *r, inputs, variables);
            assert(out@ == opened + render_body(t, ins, vars, d));
        },
        Expr::Field { record, field } => {
            append_reference(out, *record, inputs, variables);
            out.append(".");
            out.append(field.as_str());
            assert(out@ == opened + render_body(t, ins, vars, d));
        },
        Expr::Unary { operand, .. } => {
            out.append("-");
            write_expression(out, operand, inputs, variables, d, Some((2, true)));
            assert(out@ == opened + render_body(t, ins, vars, d));
        },
        Expr::Binary { .. } => write_binary(out, e, inputs, variables, d),
        Expr::Call { .. } => write_call(out, e, inputs, variables, d),
    }
    assert(out@ == opened + render_body(t, ins, vars, d));
    if parenthesize {
        out.append(")");
    }
}

/// Appends the text of a call, `name(arg, ...)`.
fn write_call(out: &mut String, e: &Expr, inputs: &[String], variables: &[Variable], d: Dialect)
    requires
        e is Call,
        refers_within(e.term(), inputs.len() as nat, variables.len() as nat),
    ensures
        final(out)@ == old(out)@ + render_body(e.term(), names_of(inputs@), variable_names_of(variables@), d),
    decreases e, 1int,
{
    let ghost ins = names_of(inputs@);
    let ghost vars = variable_names_of(variables@);
    let ghost opened = out@;
    let ghost t = e.term();
    match e {
        Expr::Call { function, args } => {
            proof {
                lemma_call_term(e);
            }
            append_function_name(out, d, *function);
            out.append("(");
            let ghost head = out@;
            let ghost ts = terms(args@);
            let mut k: usize = 0;
            assert(ts.take(0) =~= Seq::<Term>::empty());
            assert(all_refer_within(ts, inputs.len() as nat, variables.len() as nat));
            assert forall|j: int| 0 <= j < args.len() implies refers_within(#[trigger] ts[j], inputs.len() as nat, variables.len() as nat) by {
                lemma_all_within(ts, inputs.len() as nat, variables.len() as nat, j);
            }
            while k < args.len()
                invariant
                    k <= args.len(),
                    ts == terms(args@),
                    ins == names_of(inputs@),
                    vars == variable_names_of(variables@),
                    forall|j: int| 0 <= j < args.len() ==> refers_within(#[trigger] ts[j], inputs.len() as nat, variables.len() as nat),
                    forall|j: int| 0 <= j < args.len() ==> decreases_to!(e => args@[j]),
                    out@ == head + render_args(ts.take(k as int), ins, vars, d),
                decreases args.len() - k,
            {
                proof {
                    lemma_render_args_push(ts, k as int, ins, vars, d);
                }
                assert(ts[k as int] == args@[k as int].term());
                if k > 0 {
                    out.append(", ");
                }
                write_expression(out, &args[k], inputs, variables, d, None);
                k = k + 1;
            }
            assert(ts.take(args.len() as int) == ts);
            out.append(")");
            assert(out@ == opened + render_body(t, ins, vars, d));
        },
        _ => {},
    }
}

/// Appends the text of a binary operation, without enclosing parentheses.
fn write_binary(out: &mut String, e: &Expr, inputs: &[String], variables: &[Variable], d: Dialect)
    requires
        e is Binary,
        refers_within(e.term(), inputs.len() as nat, variables.len() as nat),
    ensures
        final(out)@ == old(out)@ + render_body(e.term(), names_of(inputs@), variable_names_of(variables@), d),
    decreases e, 1int,
{
    let ghost ins = names_of(inputs@);
    let ghost vars = variable_names_of(variables@);
    let ghost opened = out@;
    let ghost t = e.term();
    match e {
        Expr::Binary { op, left, right } => match op {
            BinaryOp::Power => match small_integer_exponent(right) {
                Some(n) => if n == 4 {
                    out.append("ptfkit_pow4(");
                    write_expression(out, left, inputs, variables, d, None);
                    out.append(")");
                    assert(out@ == opened + render_body(t, ins, vars, d));
                } else {
                    let ghost first = render_term(left.term(), ins, vars, d, Some((1, false)));
                    let ghost rest = render_term(left.term(), ins, vars, d, Some((1, true)));
                    write_expression(out, left, inputs, variables, d, Some((1, false)));
                    let mut k: u8 = 1;
                    while k < n
                        invariant
                            1 <= k <= n,
                            n <= 4,
                            refers_within(left.term(), inputs.len() as nat, variables.len() as nat),
                            ins == names_of(inputs@),
                            vars == variable_names_of(variables@),
                            rest == render_term(left.term(), ins, vars, d, Some((1, true))),
                            out@ == opened + repeated_product(first, rest, k as nat),
                            decreases_to!(e => left),
                        decreases n - k,
                    {
                        out.append(" * ");
                        write_expression(out, left, inputs, variables, d, Some((1, true)));
                        k = k + 1;
                    }
                    assert(out@ == opened + render_body(t, ins, vars, d));
                },
                None => {
                    append_math_name(out, d, "pow");
                    out.append("(");
                    write_expression(out, left, inputs, variables, d, None);
                    out.append(", ");
                    write_expression(out, right, inputs, variables, d, None);
                    out.append(")");
                    assert(out@ == opened + render_body(t, ins, vars, d));
                },
            },
            _ => {
                let q: u8 = match op {
                    BinaryOp::Add | BinaryOp::Subtract => 0,
                    _ => 1,
                };
                write_expression(out, left, inputs, variables, d, Some((q, false)));
                match op {
                    BinaryOp::Add => out.append(" + "),
                    BinaryOp::Subtract => out.append(" - "),
                    BinaryOp::Multiply => out.append(" * "),
                    _ => out.append(" / "),
                }
                write_expression(out, right, inputs, variables, d, Some((q, true)));
                assert(out@ == opened + render_body(t, ins, vars, d));
            },
        },
        _ => {},
    }
}

/// A compiled formula as C or C++ source text.
pub fn expression(value: &Expr, inputs: &[String], variables: &[Variable], dialect: Dialect) -> (r: String)
    requires
        refers_within(value.term(), inputs.len() as nat, variables.len() as nat),
    ensures
        r@ == render_term(value.term(), names_of(inputs@), variable_names_of(variables@), dialect, None),
{
    let mut out = String::new();
    write_expression(&mut out, value, inputs, variables, dialect, None);
    out
}

/// Whether the expression needs the math library: a call, or a power other than a
/// small integer one.
pub open spec fn needs_math(t: Term) -> bool
    decreases t,
{
    match t {
        Term::Unary(_, operand) => needs_math(*operand),
        Term::Binary(op, left, right) => (op == BinaryOp::Power && small_exponent(*right) is None) || needs_math(*left) || needs_math(*right),
        Term::Call(_, _) => true,
        _ => false,
    }
}

/// Whether the expression raises something to the fourth power.
pub open spec fn needs_pow4(t: Term) -> bool
    decreases t,
{
    match t {
        Term::Unary(_, operand) => needs_pow4(*operand),
        Term::Binary(op, left, right) => (op == BinaryOp::Power && small_exponent(*right) == Some(4u8)) || needs_pow4(*left) || needs_pow4(*right),
        Term::Call(_, args) => any_pow4(args),
        _ => false,
    }
}

pub open spec fn any_pow4(args: Seq<Term>) -> bool
    decreases args,
{
    if args.len() == 0 {
        false
    } else {
        any_pow4(args.drop_last()) || needs_pow4(args.last())
    }
}

proof fn lemma_any_pow4_prefix(args: Seq<Term>, m: int)
    requires
        0 <= m <= args.len(),
        any_pow4(args.take(m)),
    ensures
        any_pow4(args),
    decreases args.len() - m,
{
    if m < args.len() {
        assert(args.take(m + 1).drop_last() == args.take(m));
        lemma_any_pow4_prefix(args, m + 1);
    } else {
        assert(args.take(m) == args);
    }
}

pub fn requires_math(e: &Expr) -> (r: bool)
    ensures
        r == needs_math(e.term()),
    decreases e,
{
    match e {
        Expr::Unary { operand, .. } => requires_math(operand),
        Expr::Binary { op, left, right } => {
            (matches!(op, BinaryOp::Power) && small_integer_exponent(right).is_none()) || requires_math(left) || requires_math(right)
        },
        Expr::Call { .. } => true,
        _ => false,
    }
}

pub fn requires_pow4(e: &Expr) -> (r: bool)
    ensures
        r == needs_pow4(e.term()),
    decreases e,
{
    match e {
        Expr::Unary { operand, .. } => requires_pow4(operand),
        Expr::Binary { op, left, right } => {
            let four = match small_integer_exponent(right) {
                Some(n) => n == 4,
                None => false,
            };
            (matches!(op, BinaryOp::Power) && four) || requires_pow4(left) || requires_pow4(right)
        },
        Expr::Call { function, args } => {
            proof {
                lemma_call_term(e);
            }
            let ghost ts = terms(args@);
            let mut k: usize = 0;
            assert(ts.take(0) =~= Seq::<Term>::empty());
            while k < args.len()
                invariant
                    k <= args.len(),
                    ts == terms(args@),
                    e.term() == Term::Call(*function, ts),
                    !any_pow4(ts.take(k as int)),
                    forall|j: int| 0 <= j < args.len() ==> decreases_to!(e => args@[j]),
                decreases args.len() - k,
            {
                assert(ts[k as int] == args@[k as int].term());
                assert(ts.take(k + 1).drop_last() == ts.take(k as int));
                assert(ts.take(k + 1).last() == ts[k as int]);
                if requires_pow4(&args[k]) {
                    proof {
                        lemma_any_pow4_prefix(ts, k + 1);
                    }
                    return true;
                }
                k = k + 1;
            }
            assert(ts.take(args.len() as int) == ts);
            false
        },
        _ => false,
    }
}

/// The C or C++ routine that computes a math function.
pub open spec fn routine_name(f: MathFunction, d: Dialect) -> Seq<char> {
    (if d == Dialect::Cpp {
        "std::"@
    } else {
        seq![]
    }) + match f {
        MathFunction::Sqrt => "sqrt"@,
        MathFunction::Exp => "exp"@,
        MathFunction::Ln => "log"@,
        MathFunction::Log10 => "log10"@,
        MathFunction::Abs => if d == Dialect::Cpp { "abs"@ } else { "fabs"@ },
        MathFunction::Min => "fmin"@,
        MathFunction::Max => "fmax"@,
    }
}

/// Law: a call is written as the math routine that computes its function, applied to
/// its arguments: `sqrt`, `exp`, the natural logarithm `log` for `ln`, the decimal
/// logarithm `log10` for `log10`, `fabs`, `fmin` and `fmax` in C; in C++ the same
/// routines of `std::`, with `std::abs` for the absolute value. In particular `ln` and
/// `log10` are written as different routines.
pub proof fn law_calls_name_their_routine(
    f: MathFunction,
    args: Seq<Term>,
    inputs: Seq<Seq<char>>,
    variables: Seq<Seq<char>>,
    d: Dialect,
)
    ensures
        render_term(Term::Call(f, args), inputs, variables, d, None) == routine_name(f, d) + "("@ + render_args(
            args,
            inputs,
            variables,
            d,
        ) + ")"@,
        render_term(Term::Call(MathFunction::Ln, args), inputs, variables, d, None) != render_term(
            Term::Call(MathFunction::Log10, args),
            inputs,
            variables,
            d,
            None,
        ),
{
    reveal_strlit("std::");
    reveal_strlit("std::abs");
    reveal_strlit("abs");
    reveal_strlit("log");
    reveal_strlit("log10");
    reveal_strlit("(");
    assert("std::abs"@ =~= "std::"@ + "abs"@);
    assert forall|g: MathFunction| #[trigger] function_text(d, g) == routine_name(g, d) by {
        assert(seq![] + "sqrt"@ =~= "sqrt"@);
        assert(seq![] + "exp"@ =~= "exp"@);
        assert(seq![] + "log"@ =~= "log"@);
        assert(seq![] + "log10"@ =~= "log10"@);
        assert(seq![] + "fabs"@ =~= "fabs"@);
        assert(seq![] + "fmin"@ =~= "fmin"@);
        assert(seq![] + "fmax"@ =~= "fmax"@);
    }
    let rest = "("@ + render_args(args, inputs, variables, d) + ")"@;
    let ln = render_term(Term::Call(MathFunction::Ln, args), inputs, variables, d, None);
    let lg = render_term(Term::Call(MathFunction::Log10, args), inputs, variables, d, None);
    assert(function_text(d, MathFunction::Ln) == routine_name(MathFunction::Ln, d));
    assert(function_text(d, MathFunction::Log10) == routine_name(MathFunction::Log10, d));
    assert(function_text(d, f) == routine_name(f, d));
    let p: Seq<char> = if d == Dialect::Cpp { "std::"@ } else { seq![] };
    assert(rank(Term::Call(MathFunction::Ln, args)) == 3);
    assert(ln == render_body(Term::Call(MathFunction::Ln, args), inputs, variables, d));
    assert(ln == function_text(d, MathFunction::Ln) + "("@ + render_args(args, inputs, variables, d) + ")"@);
    assert(routine_name(MathFunction::Ln, d) == p + "log"@);
    assert(ln =~= p + "log"@ + rest);
    assert(rank(Term::Call(MathFunction::Log10, args)) == 3);
    assert(lg == render_body(Term::Call(MathFunction::Log10, args), inputs, variables, d));
    assert(routine_name(MathFunction::Log10, d) == p + "log10"@);
    assert(lg =~= p + "log10"@ + rest);
    assert(rank(Term::Call(f, args)) == 3);
    assert(render_term(Term::Call(f, args), inputs, variables, d, None) == render_body(Term::Call(f, args), inputs, variables, d));
    assert(ln[p.len() + 3int] == '(');
    assert(lg[p.len() + 3int] == '1');
}

} // verus!
