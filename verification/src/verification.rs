//! Tolerances of numeric verification that depend on a function's formulas.

use vstd::prelude::*;
use crate::semantic::{Expr, Function, MathFunction, Term, VariableValue, lemma_call_term, terms};
use crate::formula::BinaryOp;

verus! {

/// Units in the last place allowed for formulas of elementary arithmetic.
pub const ELEMENTARY_ULPS: usize = 8;

/// Units in the last place allowed once a power or a transcendental function occurs.
pub const TRANSCENDENTAL_ULPS: usize = 64;

/// Whether a formula raises to a power or calls `sqrt`, `exp`, `ln` or `log10`.
pub open spec fn transcendental(t: Term) -> bool
    decreases t,
{
    match t {
        Term::Unary(_, operand) => transcendental(*operand),
        Term::Binary(op, left, right) => op == BinaryOp::Power || transcendental(*left) || transcendental(*right),
        Term::Call(f, args) => f == MathFunction::Sqrt || f == MathFunction::Exp || f == MathFunction::Ln
            || f == MathFunction::Log10 || any_transcendental(args),
        _ => false,
    }
}

pub open spec fn any_transcendental(args: Seq<Term>) -> bool
    decreases args,
{
    if args.len() == 0 {
        false
    } else {
        any_transcendental(args.drop_last()) || transcendental(args.last())
    }
}

proof fn lemma_any_transcendental_prefix(args: Seq<Term>, m: int)
    requires
        0 <= m <= args.len(),
        any_transcendental(args.take(m)),
    ensures
        any_transcendental(args),
    decreases args.len() - m,
{
    if m < args.len() {
        assert(args.take(m + 1).drop_last() == args.take(m));
        lemma_any_transcendental_prefix(args, m + 1);
    } else {
        assert(args.take(m) == args);
    }
}

pub fn has_transcendental(e: &Expr) -> (r: bool)
    ensures
        r == transcendental(e.term()),
    decreases e,
{
    match e {
        Expr::Unary { operand, .. } => has_transcendental(operand),
        Expr::Binary { op, left, right } => matches!(op, BinaryOp::Power) || has_transcendental(left) || has_transcendental(right),
        Expr::Call { function, args } => {
            proof {
                lemma_call_term(e);
            }
            if matches!(function, MathFunction::Sqrt | MathFunction::Exp | MathFunction::Ln | MathFunction::Log10) {
                return true;
            }
            let ghost ts = terms(args@);
            let mut k: usize = 0;
            assert(ts.take(0) =~= Seq::<Term>::empty());
            while k < args.len()
                invariant
                    k <= args.len(),
                    ts == terms(args@),
                    e.term() == Term::Call(*function, ts),
                    !any_transcendental(ts.take(k as int)),
                    forall|j: int| 0 <= j < args.len() ==> decreases_to!(e => args@[j]),
                decreases args.len() - k,
            {
                assert(ts[k as int] == args@[k as int].term());
                assert(ts.take(k + 1).drop_last() == ts.take(k as int));
                assert(ts.take(k + 1).last() == ts[k as int]);
                if has_transcendental(&args[k]) {
                    proof {
                        lemma_any_transcendental_prefix(ts, k + 1);
                    }
                    return true;
                }
                k = k + 1;
            }
            assert(ts.take(args.len() as int) == ts);
            false
        },
        _ => false,
    }
}

/// Whether a variable's formula is transcendental (lookups and trees are not).
pub open spec fn variable_transcendental(v: VariableValue) -> bool {
    match v {
        VariableValue::Expression(e) => transcendental(e.term()),
        VariableValue::RecordLookup(_) => false,
        VariableValue::Tree(_) => false,
    }
}

/// The tolerance in units in the last place for a compiled function.
pub fn numeric_ulps(ir: &Function) -> (r: usize)
    ensures
        r == if exists|k: int| 0 <= k < ir.variables.len() && variable_transcendental(#[trigger] ir.variables@[k].value) {
            TRANSCENDENTAL_ULPS
        } else {
            ELEMENTARY_ULPS
        },
{
    let mut k: usize = 0;
    while k < ir.variables.len()
        invariant
            k <= ir.variables.len(),
            forall|j: int| 0 <= j < k ==> !variable_transcendental(#[trigger] ir.variables@[j].value),
        decreases ir.variables.len() - k,
    {
        let found = match &ir.variables[k].value {
            VariableValue::Expression(e) => has_transcendental(e),
            VariableValue::RecordLookup(_) => false,
            VariableValue::Tree(_) => false,
        };
        if found {
            assert(variable_transcendental(ir.variables@[k as int].value));
            return TRANSCENDENTAL_ULPS;
        }
        k = k + 1;
    }
    ELEMENTARY_ULPS
}

} // verus!
