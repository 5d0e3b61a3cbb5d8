//! The semantic model of a function's implementation: formulas resolved against the
//! inputs and the variables before them, lookups and decision trees.

use vstd::prelude::*;
use vstd::string::*;
use crate::formula::{self, BinaryOp, Node, Shape, Span, UnaryOp, lemma_call_node, nodes};
use crate::strings::{
    chars_of, decimal, decimal_text, lemma_text_less_irreflexive, lemma_text_less_total, lemma_text_less_transitive, push_char,
    str_equal, text_before, text_less,
};
use crate::model::{
    EnumDefinition, EnumType, LookupValue, OutputField, Outputs, RawExpression, RawFunction, RawInput, RawInputType, RawLookup,
    RawTreeInvocation, RawVariable, RawVariableValue, SourceLocation, TreeInput,
};
use crate::decision::{
    CallView, DefinitionView, TreeCall, compile_definition, compile_tree_definition, compile_named_tree_node, inputs_view, tree_input_type, tree_output_type,
    tree_resolved,
};

verus! {

/// The mathematical functions that formulas may call.
#[derive(Clone, Copy, Debug, PartialEq, Eq, Structural)]
pub enum MathFunction {
    Sqrt,
    Exp,
    Ln,
    Log10,
    Abs,
    Min,
    Max,
}

/// The function a formula name denotes, if any.
pub open spec fn math_function(name: Seq<char>) -> Option<MathFunction> {
    if name == "sqrt"@ {
        Some(MathFunction::Sqrt)
    } else if name == "exp"@ {
        Some(MathFunction::Exp)
    } else if name == "ln"@ {
        Some(MathFunction::Ln)
    } else if name == "log10"@ {
        Some(MathFunction::Log10)
    } else if name == "abs"@ {
        Some(MathFunction::Abs)
    } else if name == "min"@ {
        Some(MathFunction::Min)
    } else if name == "max"@ {
        Some(MathFunction::Max)
    } else {
        None
    }
}

pub open spec fn spec_arity(f: MathFunction) -> nat {
    match f {
        MathFunction::Min | MathFunction::Max => 2,
        _ => 1,
    }
}

impl MathFunction {
    /// The function that a formula calls by `name`.
    pub fn parse(name: &str) -> (r: Option<MathFunction>)
        ensures
            r == math_function(name@),
    {
        if str_equal(name, "sqrt") {
            Some(MathFunction::Sqrt)
        } else if str_equal(name, "exp") {
            Some(MathFunction::Exp)
        } else if str_equal(name, "ln") {
            Some(MathFunction::Ln)
        } else if str_equal(name, "log10") {
            Some(MathFunction::Log10)
        } else if str_equal(name, "abs") {
            Some(MathFunction::Abs)
        } else if str_equal(name, "min") {
            Some(MathFunction::Min)
        } else if str_equal(name, "max") {
            Some(MathFunction::Max)
        } else {
            None
        }
    }

    /// How many arguments the function takes.
    pub fn arity(self) -> (r: usize)
        ensures
            r == spec_arity(self),
    {
        match self {
            MathFunction::Min | MathFunction::Max => 2,
            _ => 1,
        }
    }
}

/// The number of unary and binary operators in a formula; calls and parentheses
/// count only through their contents.
pub open spec fn operation_count(n: Node) -> nat
    decreases n,
{
    match n.shape {
        Shape::Number(_) | Shape::Variable(_) | Shape::Field(_, _) => 0,
        Shape::Call(_, args) => operation_counts(args),
        Shape::Grouped(inner) => operation_count(*inner),
        Shape::Unary(_, operand) => 1 + operation_count(*operand),
        Shape::Binary(_, left, right) => 1 + operation_count(*left) + operation_count(*right),
    }
}

pub open spec fn operation_counts(args: Seq<Node>) -> nat
    decreases args,
{
    if args.len() == 0 {
        0
    } else {
        operation_counts(args.drop_last()) + operation_count(args.last())
    }
}

/// Whether a subformula is complex enough that, written twice, it must be named by an
/// implementation variable: calls, divisions, powers and compound arithmetic.
pub open spec fn needs_extraction(n: Node) -> bool
    decreases n,
{
    match n.shape {
        Shape::Call(_, _) => true,
        Shape::Binary(op, _, _) => op == BinaryOp::Divide || op == BinaryOp::Power || operation_count(n) > 1,
        Shape::Unary(_, operand) => operation_count(n) > 1 || needs_extraction(*operand),
        Shape::Grouped(operand) => operation_count(n) > 1 || needs_extraction(*operand),
        _ => false,
    }
}

pub open spec fn saturated(n: nat) -> usize {
    if n < usize::MAX { n as usize } else { usize::MAX }
}

/// The number of operators in a formula (saturated at `usize::MAX`).
pub fn arithmetic_operation_count(e: &formula::Expr) -> (r: usize)
    ensures
        r == saturated(operation_count(e.node())),
    decreases e,
{
    match &e.kind {
        formula::ExprKind::Number(_) | formula::ExprKind::Variable(_) | formula::ExprKind::Field { .. } => 0,
        formula::ExprKind::Call { args, .. } => {
            proof {
                lemma_call_node(e);
            }
            let mut total: usize = 0;
            let mut k: usize = 0;
            while k < args.len()
                invariant
                    k <= args.len(),
                    total == saturated(operation_counts(nodes(args@.take(k as int)))),
                    forall|j: int| 0 <= j < args.len() ==> decreases_to!(e => args@[j]),
                decreases args.len() - k,
            {
                let c = arithmetic_operation_count(&args[k]);
                assert(nodes(args@.take(k + 1)).drop_last() == nodes(args@.take(k as int)));
                assert(nodes(args@.take(k + 1)).last() == args@[k as int].node());
                total = total.saturating_add(c);
                k = k + 1;
            }
            assert(args@.take(args.len() as int) == args@);
            total
        },
        formula::ExprKind::Grouped(inner) => arithmetic_operation_count(inner),
        formula::ExprKind::Unary { operand, .. } => arithmetic_operation_count(operand).saturating_add(1),
        formula::ExprKind::Binary { left, right, .. } => {
            let a = arithmetic_operation_count(left);
            let b = arithmetic_operation_count(right);
            a.saturating_add(b).saturating_add(1)
        },
    }
}

/// Whether a subformula must be named before it is written a second time.
pub fn requires_extraction(e: &formula::Expr) -> (r: bool)
    ensures
        r == needs_extraction(e.node()),
    decreases e,
{
    match &e.kind {
        formula::ExprKind::Call { .. } => true,
        formula::ExprKind::Binary { op, .. } => {
            match op {
                BinaryOp::Divide | BinaryOp::Power => true,
                _ => arithmetic_operation_count(e) > 1,
            }
        },
        formula::ExprKind::Unary { operand, .. } => arithmetic_operation_count(e) > 1 || requires_extraction(operand),
        formula::ExprKind::Grouped(operand) => arithmetic_operation_count(e) > 1 || requires_extraction(operand),
        _ => false,
    }
}


/// A formula without its spans: two formulas with equal structures are the same
/// expression written twice.
pub enum Structure {
    Number(Seq<char>),
    Variable(Seq<char>),
    Field(Seq<char>, Seq<char>),
    Unary(UnaryOp, Box<Structure>),
    Binary(BinaryOp, Box<Structure>, Box<Structure>),
    Call(Seq<char>, Seq<Structure>),
    Grouped(Box<Structure>),
}

pub open spec fn structure(n: Node) -> Structure
    decreases n,
{
    match n.shape {
        Shape::Number(lexeme) => Structure::Number(lexeme),
        Shape::Variable(name) => Structure::Variable(name),
        Shape::Field(base, field) => Structure::Field(base, field),
        Shape::Unary(op, operand) => Structure::Unary(op, Box::new(structure(*operand))),
        Shape::Binary(op, left, right) => Structure::Binary(op, Box::new(structure(*left)), Box::new(structure(*right))),
        Shape::Call(name, args) => Structure::Call(name, structures(args)),
        Shape::Grouped(inner) => Structure::Grouped(Box::new(structure(*inner))),
    }
}

pub open spec fn structures(args: Seq<Node>) -> Seq<Structure>
    decreases args,
{
    if args.len() == 0 {
        seq![]
    } else {
        structures(args.drop_last()).push(structure(args.last()))
    }
}

/// A formula without spans, as a value.
pub enum StructuralExpr {
    Number(String),
    Variable(String),
    Field { base: String, field: String },
    Unary { op: UnaryOp, operand: Box<StructuralExpr> },
    Binary { op: BinaryOp, left: Box<StructuralExpr>, right: Box<StructuralExpr> },
    Call { name: String, args: Vec<StructuralExpr> },
    Grouped(Box<StructuralExpr>),
}

impl StructuralExpr {
    pub open spec fn view_structure(&self) -> Structure
        decreases self,
    {
        match self {
            StructuralExpr::Number(lexeme) => Structure::Number(lexeme@),
            StructuralExpr::Variable(name) => Structure::Variable(name@),
            StructuralExpr::Field { base, field } => Structure::Field(base@, field@),
            StructuralExpr::Unary { op, operand } => Structure::Unary(*op, Box::new(operand.view_structure())),
            StructuralExpr::Binary { op, left, right } => Structure::Binary(
                *op,
                Box::new(left.view_structure()),
                Box::new(right.view_structure()),
            ),
            StructuralExpr::Call { name, args } => Structure::Call(
                name@,
                Seq::new(args.len() as nat, |k: int| if 0 <= k < args.len() { args@[k].view_structure() } else { Structure::Variable(seq![]) }),
            ),
            StructuralExpr::Grouped(inner) => Structure::Grouped(Box::new(inner.view_structure())),
        }
    }
}

proof fn lemma_structures_index(args: Seq<Node>, k: int)
    requires
        0 <= k < args.len(),
    ensures
        structures(args).len() == args.len(),
        structures(args)[k] == structure(args[k]),
    decreases args.len(),
{
    if k < args.len() - 1 {
        lemma_structures_index(args.drop_last(), k);
    } else {
        lemma_structures_len(args.drop_last());
    }
}

proof fn lemma_structures_len(args: Seq<Node>)
    ensures
        structures(args).len() == args.len(),
    decreases args.len(),
{
    if args.len() > 0 {
        lemma_structures_len(args.drop_last());
    }
}

/// The structure of a formula.
pub fn structural_expr(e: &formula::Expr) -> (r: StructuralExpr)
    ensures
        r.view_structure() == structure(e.node()),
    decreases e,
{
    match &e.kind {
        formula::ExprKind::Number(n) => StructuralExpr::Number(n.lexeme.clone()),
        formula::ExprKind::Variable(name) => StructuralExpr::Variable(name.clone()),
        formula::ExprKind::Field { base, field } => StructuralExpr::Field { base: base.clone(), field: field.clone() },
        formula::ExprKind::Unary { op, operand } => StructuralExpr::Unary { op: *op, operand: Box::new(structural_expr(operand)) },
        formula::ExprKind::Binary { op, left, right } => StructuralExpr::Binary {
            op: *op,
            left: Box::new(structural_expr(left)),
            right: Box::new(structural_expr(right)),
        },
        formula::ExprKind::Call { name, args } => {
            proof {
                lemma_call_node(e);
                lemma_structures_len(nodes(args@));
            }
            let mut out: Vec<StructuralExpr> = Vec::new();
            let mut k: usize = 0;
            while k < args.len()
                invariant
                    k <= args.len(),
                    out.len() == k,
                    forall|j: int| 0 <= j < k ==> (#[trigger] out@[j]).view_structure() == structure(args@[j].node()),
                    forall|j: int| 0 <= j < args.len() ==> decreases_to!(e => args@[j]),
                decreases args.len() - k,
            {
                let x = structural_expr(&args[k]);
                out.push(x);
                k = k + 1;
            }
            let r = StructuralExpr::Call { name: name.clone(), args: out };
            proof {
                if let Structure::Call(_, a) = r.view_structure() {
                    assert forall|j: int| 0 <= j < a.len() implies a[j] == structures(nodes(args@))[j] by {
                        lemma_structures_index(nodes(args@), j);
                    }
                    assert(a =~= structures(nodes(args@)));
                }
            }
            r
        },
        formula::ExprKind::Grouped(inner) => StructuralExpr::Grouped(Box::new(structural_expr(inner))),
    }
}

/// Whether two structures are equal.
pub fn same_structure(a: &StructuralExpr, b: &StructuralExpr) -> (r: bool)
    ensures
        r == (a.view_structure() == b.view_structure()),
    decreases a,
{
    match a {
        StructuralExpr::Number(x) => match b {
            StructuralExpr::Number(y) => str_equal(x.as_str(), y.as_str()),
            _ => false,
        },
        StructuralExpr::Variable(x) => match b {
            StructuralExpr::Variable(y) => str_equal(x.as_str(), y.as_str()),
            _ => false,
        },
        StructuralExpr::Field { base: x, field: f } => match b {
            StructuralExpr::Field { base: y, field: g } => str_equal(x.as_str(), y.as_str()) && str_equal(f.as_str(), g.as_str()),
            _ => false,
        },
        StructuralExpr::Unary { op: p, operand: x } => match b {
            StructuralExpr::Unary { op: q, operand: y } => p == q && same_structure(x, y),
            _ => false,
        },
        StructuralExpr::Binary { op: p, left: x1, right: x2 } => match b {
            StructuralExpr::Binary { op: q, left: y1, right: y2 } => {
                p == q && same_structure(x1, y1) && same_structure(x2, y2)
            },
            _ => false,
        },
        StructuralExpr::Call { name: m, args: xs } => match b {
            StructuralExpr::Call { name: n, args: ys } => {
                let ghost u = match a.view_structure() {
                    Structure::Call(_, w) => w,
                    _ => seq![],
                };
                let ghost v = match b.view_structure() {
                    Structure::Call(_, w) => w,
                    _ => seq![],
                };
                assert(a.view_structure() == Structure::Call(m@, u));
                assert(b.view_structure() == Structure::Call(n@, v));
                assert(u.len() == xs.len() && v.len() == ys.len());
                assert(forall|j: int| 0 <= j < xs.len() ==> u[j] == (#[trigger] xs@[j]).view_structure());
                assert(forall|j: int| 0 <= j < ys.len() ==> v[j] == (#[trigger] ys@[j]).view_structure());
                if !str_equal(m.as_str(), n.as_str()) || xs.len() != ys.len() {
                    return false;
                }
                let mut k: usize = 0;
                while k < xs.len()
                    invariant
                        k <= xs.len(),
                        xs.len() == ys.len(),
                        forall|j: int| 0 <= j < k ==> (#[trigger] xs@[j]).view_structure() == ys@[j].view_structure(),
                        forall|j: int| 0 <= j < xs.len() ==> decreases_to!(a => xs@[j]),
                        u.len() == xs.len(),
                        v.len() == ys.len(),
                        forall|j: int| 0 <= j < xs.len() ==> u[j] == (#[trigger] xs@[j]).view_structure(),
                        forall|j: int| 0 <= j < ys.len() ==> v[j] == (#[trigger] ys@[j]).view_structure(),
                        a.view_structure() == Structure::Call(m@, u),
                        b.view_structure() == Structure::Call(n@, v),
                    decreases xs.len() - k,
                {
                    if !same_structure(&xs[k], &ys[k]) {
                        assert(u[k as int] != v[k as int]);
                        assert(u != v);
                        return false;
                    }
                    k = k + 1;
                }
                assert(u =~= v);
                true
            },
            _ => false,
        },
        StructuralExpr::Grouped(x) => match b {
            StructuralExpr::Grouped(y) => same_structure(x, y),
            _ => false,
        },
    }
}


/// Where a subformula was written.
#[derive(Clone, Copy, Debug, PartialEq, Eq, Structural)]
pub struct Occurrence {
    pub source_location: SourceLocation,
    pub span: Span,
}

pub open spec fn occurrence_of(n: Node, loc: SourceLocation) -> Occurrence {
    Occurrence { source_location: loc, span: Span { start: n.start as usize, end: n.end as usize } }
}

/// The occurrence recorded for a structure, if any.
pub open spec fn recorded(occ: Seq<(Structure, Occurrence)>, st: Structure) -> Option<Occurrence>
    decreases occ.len(),
{
    if occ.len() == 0 {
        None
    } else if occ[0].0 == st {
        Some(occ[0].1)
    } else {
        recorded(occ.drop_first(), st)
    }
}

/// Walks a formula in source order, recording each subformula that needs extraction;
/// stops at the first one whose structure was recorded before, giving the earlier
/// and the later occurrence.
pub open spec fn find_repeat(n: Node, loc: SourceLocation, occ: Seq<(Structure, Occurrence)>) -> (
    Option<(Occurrence, Occurrence)>,
    Seq<(Structure, Occurrence)>,
)
    decreases n,
{
    let here = occurrence_of(n, loc);
    let (found, occ1) = if needs_extraction(n) {
        match recorded(occ, structure(n)) {
            Some(first) => (Some((first, here)), occ),
            None => (None, occ.push((structure(n), here))),
        }
    } else {
        (None, occ)
    };
    if found is Some {
        (found, occ1)
    } else {
        match n.shape {
            Shape::Unary(_, operand) => find_repeat(*operand, loc, occ1),
            Shape::Grouped(operand) => find_repeat(*operand, loc, occ1),
            Shape::Binary(_, left, right) => {
                let (f, occ2) = find_repeat(*left, loc, occ1);
                if f is Some {
                    (f, occ2)
                } else {
                    find_repeat(*right, loc, occ2)
                }
            },
            Shape::Call(_, args) => find_repeat_list(args, loc, occ1),
            _ => (None, occ1),
        }
    }
}

pub open spec fn find_repeat_list(args: Seq<Node>, loc: SourceLocation, occ: Seq<(Structure, Occurrence)>) -> (
    Option<(Occurrence, Occurrence)>,
    Seq<(Structure, Occurrence)>,
)
    decreases args,
{
    if args.len() == 0 {
        (None, occ)
    } else {
        let (f, o) = find_repeat_list(args.drop_last(), loc, occ);
        if f is Some {
            (f, o)
        } else {
            find_repeat(args.last(), loc, o)
        }
    }
}

pub open spec fn occurrences_view(occ: Seq<(StructuralExpr, Occurrence)>) -> Seq<(Structure, Occurrence)> {
    occ.map_values(|p: (StructuralExpr, Occurrence)| (p.0.view_structure(), p.1))
}

proof fn lemma_found_in_prefix(args: Seq<Node>, m: int, loc: SourceLocation, occ: Seq<(Structure, Occurrence)>)
    requires
        0 <= m <= args.len(),
        find_repeat_list(args.take(m), loc, occ).0 is Some,
    ensures
        find_repeat_list(args, loc, occ) == find_repeat_list(args.take(m), loc, occ),
    decreases args.len() - m,
{
    if m < args.len() {
        assert(args.take(m + 1).drop_last() == args.take(m));
        lemma_found_in_prefix(args, m + 1, loc, occ);
    } else {
        assert(args.take(m) == args);
    }
}

fn recorded_of(occurrences: &Vec<(StructuralExpr, Occurrence)>, st: &StructuralExpr) -> (r: Option<Occurrence>)
    ensures
        r == recorded(occurrences_view(occurrences@), st.view_structure()),
{
    let ghost v = occurrences_view(occurrences@);
    let mut k: usize = 0;
    assert(v.skip(0) == v);
    while k < occurrences.len()
        invariant
            k <= occurrences.len(),
            v == occurrences_view(occurrences@),
            recorded(v, st.view_structure()) == recorded(v.skip(k as int), st.view_structure()),
        decreases occurrences.len() - k,
    {
        assert(v.skip(k as int)[0] == v[k as int]);
        if same_structure(&occurrences[k].0, st) {
            return Some(occurrences[k].1);
        }
        assert(v.skip(k as int).drop_first() == v.skip(k + 1));
        k = k + 1;
    }
    None
}

/// Records the subformulas of `e` that need extraction and returns the first one that
/// repeats a recorded structure, with both occurrences.
pub fn find_repeated_expression(
    e: &formula::Expr,
    source_location: SourceLocation,
    occurrences: &mut Vec<(StructuralExpr, Occurrence)>,
) -> (r: Option<(Occurrence, Occurrence)>)
    ensures
        r == find_repeat(e.node(), source_location, occurrences_view(old(occurrences)@)).0,
        r is None ==> occurrences_view(final(occurrences)@) == find_repeat(
            e.node(),
            source_location,
            occurrences_view(old(occurrences)@),
        ).1,
    decreases e,
{
    let ghost before = occurrences_view(occurrences@);
    if requires_extraction(e) {
        let st = structural_expr(e);
        let here = Occurrence { source_location, span: e.span };
        match recorded_of(occurrences, &st) {
            Some(first) => {
                return Some((first, here));
            },
            None => {
                occurrences.push((st, here));
                assert(occurrences_view(occurrences@) == before.push((structure(e.node()), here)));
            },
        }
    }
    match &e.kind {
        formula::ExprKind::Unary { operand, .. } => find_repeated_expression(operand, source_location, occurrences),
        formula::ExprKind::Grouped(operand) => find_repeated_expression(operand, source_location, occurrences),
        formula::ExprKind::Binary { left, right, .. } => {
            match find_repeated_expression(left, source_location, occurrences) {
                Some(found) => Some(found),
                None => find_repeated_expression(right, source_location, occurrences),
            }
        },
        formula::ExprKind::Call { args, .. } => {
            proof {
                lemma_call_node(e);
            }
            let ghost start = occurrences_view(occurrences@);
            let mut k: usize = 0;
            assert(nodes(args@.take(0)) =~= Seq::<Node>::empty());
            assert(find_repeat(e.node(), source_location, before) == find_repeat_list(nodes(args@), source_location, start));
            while k < args.len()
                invariant
                    k <= args.len(),
                    before == occurrences_view(old(occurrences)@),
                    find_repeat(e.node(), source_location, before) == find_repeat_list(nodes(args@), source_location, start),
                    find_repeat_list(nodes(args@.take(k as int)), source_location, start).0 is None,
                    occurrences_view(occurrences@) == find_repeat_list(nodes(args@.take(k as int)), source_location, start).1,
                    forall|j: int| 0 <= j < args.len() ==> decreases_to!(e => args@[j]),
                decreases args.len() - k,
            {
                assert(nodes(args@.take(k + 1)).drop_last() == nodes(args@.take(k as int)));
                assert(nodes(args@.take(k + 1)).last() == args@[k as int].node());
                let ghost mid = occurrences_view(occurrences@);
                let found = find_repeated_expression(&args[k], source_location, occurrences);
                if found.is_some() {
                    proof {
                        assert(find_repeat_list(nodes(args@.take(k + 1)), source_location, start)
                            == find_repeat(args@[k as int].node(), source_location, mid));
                        assert(nodes(args@.take(k + 1)) == nodes(args@).take(k + 1));
                        lemma_found_in_prefix(nodes(args@), k + 1, source_location, start);
                    }
                    return found;
                }
                k = k + 1;
            }
            assert(args@.take(args.len() as int) == args@);
            None
        },
        _ => None,
    }
}


/// A value of the implementation: an input or an earlier variable, by position.
#[derive(Clone, Copy, Debug, PartialEq, Eq, Structural)]
pub enum Reference {
    Input(usize),
    Variable(usize),
}

/// A number of a compiled formula, kept as written.
#[derive(Debug, PartialEq)]
pub struct Number {
    pub lexeme: String,
}

/// A formula resolved against the implementation's values.
#[derive(Debug, PartialEq)]
pub enum Expr {
    Number(Number),
    Reference(Reference),
    Field { record: Reference, field: String },
    Unary { op: UnaryOp, operand: Box<Expr> },
    Binary { op: BinaryOp, left: Box<Expr>, right: Box<Expr> },
    Call { function: MathFunction, args: Vec<Expr> },
}

/// The meaning of a compiled formula.
pub enum Term {
    Number(Seq<char>),
    Reference(Reference),
    Field(Reference, Seq<char>),
    Unary(UnaryOp, Box<Term>),
    Binary(BinaryOp, Box<Term>, Box<Term>),
    Call(MathFunction, Seq<Term>),
}

impl Expr {
    pub open spec fn term(&self) -> Term
        decreases self,
    {
        match self {
            Expr::Number(n) => Term::Number(n.lexeme@),
            Expr::Reference(r) => Term::Reference(*r),
            Expr::Field { record, field } => Term::Field(*record, field@),
            Expr::Unary { op, operand } => Term::Unary(*op, Box::new(operand.term())),
            Expr::Binary { op, left, right } => Term::Binary(*op, Box::new(left.term()), Box::new(right.term())),
            Expr::Call { function, args } => Term::Call(
                *function,
                Seq::new(args.len() as nat, |k: int| if 0 <= k < args.len() { args@[k].term() } else { Term::Number(seq![]) }),
            ),
        }
    }
}

pub open spec fn terms(args: Seq<Expr>) -> Seq<Term> {
    args.map_values(|e: Expr| e.term())
}

pub proof fn lemma_call_term(e: &Expr)
    ensures
        e matches Expr::Call { function, args } ==> e.term() == Term::Call(*function, terms(args@)),
{
    if let Expr::Call { function, args } = e {
        if let Term::Call(_, a) = e.term() {
            assert(a =~= terms(args@));
        }
    }
}

/// A named record type and its field names.
#[derive(Debug, PartialEq)]
pub struct RecordType {
    pub name: String,
    pub fields: Vec<String>,
}

/// The type of an implementation value.
#[derive(Debug, PartialEq)]
pub enum ValueType {
    Number,
    Enum(EnumType),
    Record(RecordType),
}

pub enum TypeView {
    Number,
    Enum(Seq<char>, Seq<char>, Option<Seq<char>>),
    Record(Seq<char>, Seq<Seq<char>>),
}

pub open spec fn strings_view(v: Seq<String>) -> Seq<Seq<char>> {
    v.map_values(|x: String| x@)
}

impl ValueType {
    pub open spec fn type_view(&self) -> TypeView {
        match self {
            ValueType::Number => TypeView::Number,
            ValueType::Enum(t) => TypeView::Enum(t.identity_view().0, t.identity_view().1, t.identity_view().2),
            ValueType::Record(r) => TypeView::Record(r.name@, strings_view(r.fields@)),
        }
    }
}

/// What a name of the implementation is bound to.
#[derive(Debug, PartialEq)]
pub struct Binding {
    pub reference: Reference,
    pub value_type: ValueType,
}

/// The names in scope, in the order they were bound.
pub open spec fn scope_view(scope: Seq<(String, Binding)>) -> Seq<(Seq<char>, Reference, TypeView)> {
    scope.map_values(|e: (String, Binding)| (e.0@, e.1.reference, e.1.value_type.type_view()))
}

/// The binding of `name`: the first entry of the scope that binds it.
pub open spec fn scope_get(scope: Seq<(Seq<char>, Reference, TypeView)>, name: Seq<char>) -> Option<(Reference, TypeView)>
    decreases scope.len(),
{
    if scope.len() == 0 {
        None
    } else if scope[0].0 == name {
        Some((scope[0].1, scope[0].2))
    } else {
        scope_get(scope.drop_first(), name)
    }
}

/// The last position of `name` among the variable names.
pub open spec fn last_index(names: Seq<Seq<char>>, name: Seq<char>) -> Option<int>
    decreases names.len(),
{
    if names.len() == 0 {
        None
    } else if names.last() == name {
        Some(names.len() - 1)
    } else {
        last_index(names.drop_last(), name)
    }
}

/// Why an implementation cannot be compiled.
#[derive(Debug, PartialEq)]
pub enum SemanticErrorKind {
    DuplicateName { name: String },
    UnknownIdentifier { name: String },
    NonNumericIdentifier { name: String },
    SelfReference { name: String },
    ForwardReference { name: String },
    UnknownRecordField { record: String, field: String },
    NotARecord { name: String },
    UnsupportedFunction { name: String },
    WrongArity { name: String, expected: usize, actual: usize },
    UnknownLookupKey { key: String },
    LookupKeyType { key: String, expected: String },
    RepeatedExpression { specification_path: String, location: SourceLocation, span: Span },
    TreeArguments { tree: String, missing: Vec<String>, unknown: Vec<String> },
    TreeSelfReference { name: String },
    TreeForwardReference { name: String },
    UnknownTreeArgument { name: String },
    TreeArgumentType { name: String, actual: String, input: String, expected: String },
}

pub enum KindView {
    DuplicateName(Seq<char>),
    UnknownIdentifier(Seq<char>),
    NonNumericIdentifier(Seq<char>),
    SelfReference(Seq<char>),
    ForwardReference(Seq<char>),
    UnknownRecordField(Seq<char>, Seq<char>),
    NotARecord(Seq<char>),
    UnsupportedFunction(Seq<char>),
    WrongArity(Seq<char>, nat, nat),
    UnknownLookupKey(Seq<char>),
    LookupKeyType(Seq<char>, Seq<char>),
    RepeatedExpression(Seq<char>, SourceLocation, Span),
    TreeArguments(Seq<char>, Seq<Seq<char>>, Seq<Seq<char>>),
    TreeSelfReference(Seq<char>),
    TreeForwardReference(Seq<char>),
    UnknownTreeArgument(Seq<char>),
    TreeArgumentType(Seq<char>, Seq<char>, Seq<char>, Seq<char>),
}

impl SemanticErrorKind {
    pub open spec fn kind_view(&self) -> KindView {
        match self {
            SemanticErrorKind::DuplicateName { name } => KindView::DuplicateName(name@),
            SemanticErrorKind::UnknownIdentifier { name } => KindView::UnknownIdentifier(name@),
            SemanticErrorKind::NonNumericIdentifier { name } => KindView::NonNumericIdentifier(name@),
            SemanticErrorKind::SelfReference { name } => KindView::SelfReference(name@),
            SemanticErrorKind::ForwardReference { name } => KindView::ForwardReference(name@),
            SemanticErrorKind::UnknownRecordField { record, field } => KindView::UnknownRecordField(record@, field@),
            SemanticErrorKind::NotARecord { name } => KindView::NotARecord(name@),
            SemanticErrorKind::UnsupportedFunction { name } => KindView::UnsupportedFunction(name@),
            SemanticErrorKind::WrongArity { name, expected, actual } => KindView::WrongArity(name@, *expected as nat, *actual as nat),
            SemanticErrorKind::UnknownLookupKey { key } => KindView::UnknownLookupKey(key@),
            SemanticErrorKind::LookupKeyType { key, expected } => KindView::LookupKeyType(key@, expected@),
            SemanticErrorKind::RepeatedExpression { specification_path, location, span } => KindView::RepeatedExpression(
                specification_path@,
                *location,
                *span,
            ),
            SemanticErrorKind::TreeArguments { tree, missing, unknown } => KindView::TreeArguments(
                tree@,
                strings_view(missing@),
                strings_view(unknown@),
            ),
            SemanticErrorKind::TreeSelfReference { name } => KindView::TreeSelfReference(name@),
            SemanticErrorKind::TreeForwardReference { name } => KindView::TreeForwardReference(name@),
            SemanticErrorKind::UnknownTreeArgument { name } => KindView::UnknownTreeArgument(name@),
            SemanticErrorKind::TreeArgumentType { name, actual, input, expected } => KindView::TreeArgumentType(
                name@,
                actual@,
                input@,
                expected@,
            ),
        }
    }
}

/// The result of compiling a subformula: its term, or the span and kind of the error.
pub type Compiled<T> = Result<T, (int, int, KindView)>;

/// A subformula resolved in `scope`; `names` are the implementation's variable names
/// and `index` the position of the variable being compiled.
pub open spec fn compile_term(n: Node, scope: Seq<(Seq<char>, Reference, TypeView)>, names: Seq<Seq<char>>, index: int) -> Compiled<Term>
    decreases n,
{
    match n.shape {
        Shape::Number(lexeme) => Ok(Term::Number(lexeme)),
        Shape::Variable(name) => match scope_get(scope, name) {
            Some((reference, TypeView::Number)) => Ok(Term::Reference(reference)),
            Some(_) => Err((n.start, n.end, KindView::NonNumericIdentifier(name))),
            None => match last_index(names, name) {
                Some(k) => if k == index {
                    Err((n.start, n.end, KindView::SelfReference(name)))
                } else if k > index {
                    Err((n.start, n.end, KindView::ForwardReference(name)))
                } else {
                    Err((n.start, n.end, KindView::UnknownIdentifier(name)))
                },
                None => Err((n.start, n.end, KindView::UnknownIdentifier(name))),
            },
        },
        Shape::Field(base, field) => match scope_get(scope, base) {
            Some((reference, TypeView::Record(record, fields))) => if fields.contains(field) {
                Ok(Term::Field(reference, field))
            } else {
                Err((n.start, n.end, KindView::UnknownRecordField(record, field)))
            },
            Some(_) => Err((n.start, n.end, KindView::NotARecord(base))),
            None => Err((n.start, n.end, KindView::UnknownIdentifier(base))),
        },
        Shape::Unary(op, operand) => match compile_term(*operand, scope, names, index) {
            Ok(t) => Ok(Term::Unary(op, Box::new(t))),
            Err(e) => Err(e),
        },
        Shape::Binary(op, left, right) => match compile_term(*left, scope, names, index) {
            Ok(l) => match compile_term(*right, scope, names, index) {
                Ok(r) => Ok(Term::Binary(op, Box::new(l), Box::new(r))),
                Err(e) => Err(e),
            },
            Err(e) => Err(e),
        },
        Shape::Call(name, args) => match math_function(name) {
            None => Err((n.start, n.end, KindView::UnsupportedFunction(name))),
            Some(f) => if args.len() != spec_arity(f) {
                Err((n.start, n.end, KindView::WrongArity(name, spec_arity(f), args.len())))
            } else {
                match compile_terms(args, scope, names, index) {
                    Ok(ts) => Ok(Term::Call(f, ts)),
                    Err(e) => Err(e),
                }
            },
        },
        Shape::Grouped(inner) => compile_term(*inner, scope, names, index),
    }
}

/// Arguments resolved left to right; the first error wins.
pub open spec fn compile_terms(args: Seq<Node>, scope: Seq<(Seq<char>, Reference, TypeView)>, names: Seq<Seq<char>>, index: int) -> Compiled<Seq<Term>>
    decreases args,
{
    if args.len() == 0 {
        Ok(seq![])
    } else {
        match compile_terms(args.drop_last(), scope, names, index) {
            Ok(ts) => match compile_term(args.last(), scope, names, index) {
                Ok(t) => Ok(ts.push(t)),
                Err(e) => Err(e),
            },
            Err(e) => Err(e),
        }
    }
}


/// An error of a function's implementation.
#[derive(Debug, PartialEq)]
pub struct Error {
    pub specification_path: String,
    pub function: String,
    pub implementation_path: String,
    pub span: Span,
    pub source_location: Option<SourceLocation>,
    pub kind: SemanticErrorKind,
}

impl Error {
    /// An error at `span` of the implementation entry `implementation_path`.
    pub fn in_function(raw: &RawFunction, implementation_path: &str, span: Span, kind: SemanticErrorKind) -> (r: Box<Error>)
        ensures
            r.specification_path@ == raw.specification_path@,
            r.function@ == raw.name@,
            r.implementation_path@ == implementation_path@,
            r.span == span,
            r.source_location is None,
            r.kind == kind,
    {
        Box::new(Error {
            specification_path: raw.specification_path.clone(),
            function: raw.name.clone(),
            implementation_path: implementation_path.to_owned(),
            span,
            source_location: None,
            kind,
        })
    }

    /// An error at `span` of a formula written at `source_location`.
    pub fn at_source(raw: &RawFunction, source_location: SourceLocation, span: Span, kind: SemanticErrorKind) -> (r: Box<Error>)
        ensures
            r.specification_path@ == raw.specification_path@,
            r.function@ == raw.name@,
            r.implementation_path@ == Seq::<char>::empty(),
            r.span == span,
            r.source_location == Some(source_location),
            r.kind == kind,
    {
        Box::new(Error {
            specification_path: raw.specification_path.clone(),
            function: raw.name.clone(),
            implementation_path: String::new(),
            span,
            source_location: Some(source_location),
            kind,
        })
    }
}

/// The error of a subformula, as its span and kind.
pub open spec fn error_view(e: &Error) -> (int, int, KindView) {
    (e.span.start as int, e.span.end as int, e.kind.kind_view())
}

/// The error names the function and the formula it was found in.
pub open spec fn located_in(e: &Error, raw: &RawFunction, source: &RawExpression) -> bool {
    &&& e.specification_path@ == raw.specification_path@
    &&& e.function@ == raw.name@
    &&& e.implementation_path@ == source.implementation_path@
    &&& e.source_location is None
}

fn scope_index(scope: &Vec<(String, Binding)>, name: &String) -> (r: Option<usize>)
    ensures
        r matches Some(k) ==> k < scope.len() && scope_get(scope_view(scope@), name@) == Some(
            (scope@[k as int].1.reference, scope@[k as int].1.value_type.type_view()),
        ),
        r is None ==> scope_get(scope_view(scope@), name@) is None,
{
    let ghost v = scope_view(scope@);
    let mut k: usize = 0;
    assert(v.skip(0) == v);
    while k < scope.len()
        invariant
            k <= scope.len(),
            v == scope_view(scope@),
            scope_get(v, name@) == scope_get(v.skip(k as int), name@),
        decreases scope.len() - k,
    {
        assert(v.skip(k as int)[0] == v[k as int]);
        if scope[k].0 == *name {
            return Some(k);
        }
        assert(v.skip(k as int).drop_first() == v.skip(k + 1));
        k = k + 1;
    }
    None
}

fn last_index_of(names: &Vec<String>, name: &String) -> (r: Option<usize>)
    ensures
        r matches Some(k) ==> last_index(strings_view(names@), name@) == Some(k as int),
        r is None ==> last_index(strings_view(names@), name@) is None,
{
    let ghost v = strings_view(names@);
    let mut k: usize = names.len();
    assert(v.take(v.len() as int) == v);
    while k > 0
        invariant
            k <= names.len(),
            v == strings_view(names@),
            last_index(v, name@) == last_index(v.take(k as int), name@),
        decreases k,
    {
        assert(v.take(k as int).last() == v[k - 1]);
        if names[k - 1] == *name {
            return Some(k - 1);
        }
        assert(v.take(k as int).drop_last() == v.take(k - 1));
        k = k - 1;
    }
    None
}

pub(crate) fn contains_string(items: &Vec<String>, x: &String) -> (r: bool)
    ensures
        r == strings_view(items@).contains(x@),
{
    let mut k: usize = 0;
    while k < items.len()
        invariant
            k <= items.len(),
            forall|j: int| 0 <= j < k ==> items@[j]@ != x@,
        decreases items.len() - k,
    {
        if items[k] == *x {
            assert(strings_view(items@)[k as int] == x@);
            return true;
        }
        k = k + 1;
    }
    assert forall|j: int| 0 <= j < strings_view(items@).len() implies strings_view(items@)[j] != x@ by {
        assert(strings_view(items@)[j] == items@[j]@);
    }
    false
}

/// Compiles one formula of variable `variable_index` in `scope`.
pub fn compile_expr(
    raw: &RawFunction,
    source: &RawExpression,
    expression: &formula::Expr,
    scope: &Vec<(String, Binding)>,
    variable_names: &Vec<String>,
    variable_index: usize,
) -> (r: Result<Expr, Box<Error>>)
    ensures
        match r {
            Ok(e) => compile_term(expression.node(), scope_view(scope@), strings_view(variable_names@), variable_index as int)
                == Ok::<Term, (int, int, KindView)>(e.term()),
            Err(err) => compile_term(expression.node(), scope_view(scope@), strings_view(variable_names@), variable_index as int)
                == Err::<Term, (int, int, KindView)>(error_view(&err)) && located_in(&err, raw, source),
        },
    decreases expression,
{
    let span = expression.span;
    match &expression.kind {
        formula::ExprKind::Number(n) => Ok(Expr::Number(Number { lexeme: n.lexeme.clone() })),
        formula::ExprKind::Variable(name) => match scope_index(scope, name) {
            Some(k) => match &scope[k].1.value_type {
                ValueType::Number => Ok(Expr::Reference(scope[k].1.reference)),
                _ => Err(Error::in_function(raw, source.implementation_path.as_str(), span, SemanticErrorKind::NonNumericIdentifier { name: name.clone() })),
            },
            None => {
                let kind = match last_index_of(variable_names, name) {
                    Some(k) => if k == variable_index {
                        SemanticErrorKind::SelfReference { name: name.clone() }
                    } else if k > variable_index {
                        SemanticErrorKind::ForwardReference { name: name.clone() }
                    } else {
                        SemanticErrorKind::UnknownIdentifier { name: name.clone() }
                    },
                    None => SemanticErrorKind::UnknownIdentifier { name: name.clone() },
                };
                Err(Error::in_function(raw, source.implementation_path.as_str(), span, kind))
            },
        },
        formula::ExprKind::Field { base, field } => match scope_index(scope, base) {
            Some(k) => match &scope[k].1.value_type {
                ValueType::Record(record) => if contains_string(&record.fields, field) {
                    Ok(Expr::Field { record: scope[k].1.reference, field: field.clone() })
                } else {
                    Err(Error::in_function(raw, source.implementation_path.as_str(), span, SemanticErrorKind::UnknownRecordField { record: record.name.clone(), field: field.clone() }))
                },
                _ => Err(Error::in_function(raw, source.implementation_path.as_str(), span, SemanticErrorKind::NotARecord { name: base.clone() })),
            },
            None => Err(Error::in_function(raw, source.implementation_path.as_str(), span, SemanticErrorKind::UnknownIdentifier { name: base.clone() })),
        },
        formula::ExprKind::Unary { op, operand } => {
            let inner = compile_expr(raw, source, operand, scope, variable_names, variable_index)?;
            Ok(Expr::Unary { op: *op, operand: Box::new(inner) })
        },
        formula::ExprKind::Binary { op, left, right } => {
            let l = compile_expr(raw, source, left, scope, variable_names, variable_index)?;
            let r = compile_expr(raw, source, right, scope, variable_names, variable_index)?;
            Ok(Expr::Binary { op: *op, left: Box::new(l), right: Box::new(r) })
        },
        formula::ExprKind::Call { name, args } => {
            proof {
                lemma_call_node(expression);
            }
            let function = match MathFunction::parse(name.as_str()) {
                Some(f) => f,
                None => {
                    return Err(Error::in_function(raw, source.implementation_path.as_str(), span, SemanticErrorKind::UnsupportedFunction { name: name.clone() }));
                },
            };
            if args.len() != function.arity() {
                return Err(Error::in_function(raw, source.implementation_path.as_str(), span, SemanticErrorKind::WrongArity { name: name.clone(), expected: function.arity(), actual: args.len() }));
            }
            let mut out: Vec<Expr> = Vec::new();
            let mut k: usize = 0;
            assert(nodes(args@.take(0)) =~= Seq::<Node>::empty());
            assert(terms(out@) =~= Seq::<Term>::empty());
            let ghost whole = compile_term(expression.node(), scope_view(scope@), strings_view(variable_names@), variable_index as int);
            assert(whole == match compile_terms(nodes(args@), scope_view(scope@), strings_view(variable_names@), variable_index as int) {
                Ok(ts) => Ok(Term::Call(function, ts)),
                Err(e) => Err(e),
            });
            while k < args.len()
                invariant
                    k <= args.len(),
                    whole == compile_term(expression.node(), scope_view(scope@), strings_view(variable_names@), variable_index as int),
                    whole == match compile_terms(nodes(args@), scope_view(scope@), strings_view(variable_names@), variable_index as int) {
                        Ok(ts) => Ok(Term::Call(function, ts)),
                        Err(e) => Err(e),
                    },
                    compile_terms(nodes(args@.take(k as int)), scope_view(scope@), strings_view(variable_names@), variable_index as int)
                        == Ok::<Seq<Term>, (int, int, KindView)>(terms(out@)),
                    forall|j: int| 0 <= j < args.len() ==> decreases_to!(expression => args@[j]),
                decreases args.len() - k,
            {
                assert(nodes(args@.take(k + 1)).drop_last() == nodes(args@.take(k as int)));
                assert(nodes(args@.take(k + 1)).last() == args@[k as int].node());
                let ghost before = terms(out@);
                match compile_expr(raw, source, &args[k], scope, variable_names, variable_index) {
                    Ok(x) => {
                        out.push(x);
                        assert(terms(out@) == before.push(x.term()));
                    },
                    Err(e) => {
                        proof {
                            lemma_compile_prefix_error(nodes(args@), k + 1, scope_view(scope@), strings_view(variable_names@), variable_index as int);
                            assert(nodes(args@.take(k + 1)) == nodes(args@).take(k + 1));
                        }
                        return Err(e);
                    },
                }
                k = k + 1;
            }
            assert(args@.take(args.len() as int) == args@);
            let e = Expr::Call { function, args: out };
            proof {
                lemma_call_term(&e);
            }
            Ok(e)
        },
        formula::ExprKind::Grouped(inner) => compile_expr(raw, source, inner, scope, variable_names, variable_index),
    }
}

proof fn lemma_compile_prefix_error(
    args: Seq<Node>,
    m: int,
    scope: Seq<(Seq<char>, Reference, TypeView)>,
    names: Seq<Seq<char>>,
    index: int,
)
    requires
        0 <= m <= args.len(),
        compile_terms(args.take(m), scope, names, index) is Err,
    ensures
        compile_terms(args, scope, names, index) == compile_terms(args.take(m), scope, names, index),
    decreases args.len() - m,
{
    if m < args.len() {
        assert(args.take(m + 1).drop_last() == args.take(m));
        lemma_compile_prefix_error(args, m + 1, scope, names, index);
    } else {
        assert(args.take(m) == args);
    }
}


/// A copy of an enumeration's identity.
pub fn copy_enum_type(t: &EnumType) -> (r: EnumType)
    ensures
        r.identity_view() == t.identity_view(),
{
    EnumType {
        document: t.document.clone(),
        name: t.name.clone(),
        shared_module: match &t.shared_module {
            Some(m) => Some(m.clone()),
            None => None,
        },
    }
}

/// One row of a compiled lookup: the enumeration member and the field values in the
/// order of the record's fields.
#[derive(Debug, PartialEq)]
pub struct RecordLookupCase {
    pub member: String,
    pub values: Vec<Number>,
}

/// A lookup resolved against the scope: its key, types and one case per member.
#[derive(Debug, PartialEq)]
pub struct RecordLookup {
    pub key: Reference,
    pub enum_type: EnumType,
    pub output: RecordType,
    pub cases: Vec<RecordLookupCase>,
}

pub open spec fn numbers_view(v: Seq<Number>) -> Seq<Seq<char>> {
    v.map_values(|n: Number| n.lexeme@)
}

pub open spec fn cases_view(v: Seq<RecordLookupCase>) -> Seq<(Seq<char>, Seq<Seq<char>>)> {
    v.map_values(|c: RecordLookupCase| (c.member@, numbers_view(c.values@)))
}

/// A compiled lookup as values: key, member enumeration, record name and fields, cases.
pub struct LookupView {
    pub key: Reference,
    pub enum_type: (Seq<char>, Seq<char>, Option<Seq<char>>),
    pub record: Seq<char>,
    pub fields: Seq<Seq<char>>,
    pub cases: Seq<(Seq<char>, Seq<Seq<char>>)>,
}

impl RecordLookup {
    pub open spec fn lookup_view(&self) -> LookupView {
        LookupView {
            key: self.key,
            enum_type: self.enum_type.identity_view(),
            record: self.output.name@,
            fields: strings_view(self.output.fields@),
            cases: cases_view(self.cases@),
        }
    }
}

/// The first row of the table for `member`.
pub open spec fn row_for(rows: Seq<LookupValue>, member: Seq<char>) -> Option<LookupValue>
    decreases rows.len(),
{
    if rows.len() == 0 {
        None
    } else if rows[0].key@ == member {
        Some(rows[0])
    } else {
        row_for(rows.drop_first(), member)
    }
}

/// The number text a row gives for `field`.
pub open spec fn cell_for(cells: Seq<(String, String)>, field: Seq<char>) -> Option<Seq<char>>
    decreases cells.len(),
{
    if cells.len() == 0 {
        None
    } else if cells[0].0@ == field {
        Some(cells[0].1@)
    } else {
        cell_for(cells.drop_first(), field)
    }
}

pub open spec fn field_names(fields: Seq<OutputField>) -> Seq<Seq<char>> {
    fields.map_values(|f: OutputField| f.name@)
}

/// A lookup whose types were resolved and whose table covers every member of the
/// enumeration and every field of the record.
pub open spec fn lookup_resolved(l: &RawLookup) -> bool {
    &&& l.definition.input_type is Some
    &&& l.definition.output_type matches Some(Outputs::Record { .. })
    &&& forall|m: int| 0 <= m < l.definition.input_type->0.values.len() ==> {
        let member = (#[trigger] l.definition.input_type->0.values@[m]).name@;
        &&& row_for(l.definition.values@, member) is Some
        &&& forall|f: int| 0 <= f < l.definition.output_type->0.spec_fields().len()
            ==> cell_for(row_for(l.definition.values@, member)->0.value@, (#[trigger] l.definition.output_type->0.spec_fields()[f]).name@) is Some
    }
}

/// The record type of a resolved lookup's output.
pub open spec fn lookup_record(l: &RawLookup) -> TypeView {
    TypeView::Record(
        match l.definition.output_type->0 {
            Outputs::Record { name, .. } => name@,
            Outputs::Scalar { .. } => seq![],
        },
        field_names(l.definition.output_type->0.spec_fields()),
    )
}

/// A lookup compiled against the scope.
pub open spec fn compile_lookup_spec(l: &RawLookup, scope: Seq<(Seq<char>, Reference, TypeView)>) -> Result<LookupView, KindView> {
    let enum_def = l.definition.input_type->0;
    let fields = field_names(l.definition.output_type->0.spec_fields());
    match scope_get(scope, l.key@) {
        None => Err(KindView::UnknownLookupKey(l.key@)),
        Some((reference, t)) => if t != TypeView::Enum(enum_def.enum_type.identity_view().0, enum_def.enum_type.identity_view().1, enum_def.enum_type.identity_view().2) {
            Err(KindView::LookupKeyType(l.key@, enum_def.enum_type.name@))
        } else {
            Ok(LookupView {
                key: reference,
                enum_type: enum_def.enum_type.identity_view(),
                record: lookup_record(l)->Record_0,
                fields,
                cases: Seq::new(enum_def.values.len() as nat, |m: int| {
                    let member = enum_def.values@[m].name@;
                    (member, Seq::new(fields.len(), |f: int| cell_for(row_for(l.definition.values@, member)->0.value@, fields[f])->0))
                }),
            })
        },
    }
}

fn same_type(a: &ValueType, b: &ValueType) -> (r: bool)
    ensures
        r == (a.type_view() == b.type_view()),
{
    match (a, b) {
        (ValueType::Number, ValueType::Number) => true,
        (ValueType::Enum(x), ValueType::Enum(y)) => {
            let same_module = match (&x.shared_module, &y.shared_module) {
                (Some(m), Some(n)) => str_equal(m.as_str(), n.as_str()),
                (None, None) => true,
                _ => false,
            };
            str_equal(x.document.as_str(), y.document.as_str()) && str_equal(x.name.as_str(), y.name.as_str()) && same_module
        },
        (ValueType::Record(x), ValueType::Record(y)) => {
            if !str_equal(x.name.as_str(), y.name.as_str()) || x.fields.len() != y.fields.len() {
                assert(strings_view(x.fields@).len() == x.fields.len());
                assert(strings_view(y.fields@).len() == y.fields.len());
                return false;
            }
            let mut k: usize = 0;
            while k < x.fields.len()
                invariant
                    k <= x.fields.len(),
                    x.fields.len() == y.fields.len(),
                    forall|j: int| 0 <= j < k ==> x.fields@[j]@ == y.fields@[j]@,
                    a.type_view() == TypeView::Record(x.name@, strings_view(x.fields@)),
                    b.type_view() == TypeView::Record(y.name@, strings_view(y.fields@)),
                decreases x.fields.len() - k,
            {
                if !(x.fields[k] == y.fields[k]) {
                    assert(strings_view(x.fields@)[k as int] != strings_view(y.fields@)[k as int]);
                    return false;
                }
                k = k + 1;
            }
            assert(strings_view(x.fields@) =~= strings_view(y.fields@));
            true
        },
        _ => false,
    }
}

fn row_index(rows: &Vec<LookupValue>, member: &String) -> (r: Option<usize>)
    ensures
        r matches Some(k) ==> k < rows.len() && row_for(rows@, member@) == Some(rows@[k as int]),
        r is None ==> row_for(rows@, member@) is None,
{
    let mut k: usize = 0;
    assert(rows@.skip(0) == rows@);
    while k < rows.len()
        invariant
            k <= rows.len(),
            row_for(rows@, member@) == row_for(rows@.skip(k as int), member@),
        decreases rows.len() - k,
    {
        assert(rows@.skip(k as int)[0] == rows@[k as int]);
        if rows[k].key == *member {
            return Some(k);
        }
        assert(rows@.skip(k as int).drop_first() == rows@.skip(k + 1));
        k = k + 1;
    }
    None
}

pub(crate) fn cell_text(cells: &Vec<(String, String)>, field: &String) -> (r: Option<String>)
    ensures
        r matches Some(t) ==> cell_for(cells@, field@) == Some(t@),
        r is None ==> cell_for(cells@, field@) is None,
{
    let mut k: usize = 0;
    assert(cells@.skip(0) == cells@);
    while k < cells.len()
        invariant
            k <= cells.len(),
            cell_for(cells@, field@) == cell_for(cells@.skip(k as int), field@),
        decreases cells.len() - k,
    {
        assert(cells@.skip(k as int)[0] == cells@[k as int]);
        if cells[k].0 == *field {
            return Some(cells[k].1.clone());
        }
        assert(cells@.skip(k as int).drop_first() == cells@.skip(k + 1));
        k = k + 1;
    }
    None
}

/// Compiles a lookup variable: its key must be an enumeration value in scope of the
/// lookup's input type; the cases follow the order of the enumeration's members.
pub fn compile_lookup(raw: &RawFunction, lookup: &RawLookup, scope: &Vec<(String, Binding)>) -> (r: Result<(RecordLookup, RecordType), Box<Error>>)
    requires
        lookup_resolved(lookup),
    ensures
        match r {
            Ok((l, t)) => compile_lookup_spec(lookup, scope_view(scope@)) == Ok::<LookupView, KindView>(l.lookup_view())
                && ValueType::Record(t).type_view() == lookup_record(lookup),
            Err(err) => compile_lookup_spec(lookup, scope_view(scope@)) == Err::<LookupView, KindView>(err.kind.kind_view())
                && err.specification_path@ == raw.specification_path@ && err.function@ == raw.name@
                && err.implementation_path@ == lookup.implementation_path@ && err.span == (Span { start: 0, end: 0 })
                && err.source_location is None,
        },
{
    let none = Span { start: 0, end: 0 };
    let k = match scope_index(scope, &lookup.key) {
        Some(k) => k,
        None => {
            return Err(Error::in_function(raw, lookup.implementation_path.as_str(), none, SemanticErrorKind::UnknownLookupKey { key: lookup.key.clone() }));
        },
    };
    let enum_def = lookup.definition.input_type.as_ref().unwrap();
    let expected = ValueType::Enum(copy_enum_type(&enum_def.enum_type));
    if !same_type(&scope[k].1.value_type, &expected) {
        return Err(Error::in_function(raw, lookup.implementation_path.as_str(), none, SemanticErrorKind::LookupKeyType { key: lookup.key.clone(), expected: enum_def.enum_type.name.clone() }));
    }
    let (record_name, fields) = match lookup.definition.output_type.as_ref().unwrap() {
        Outputs::Record { name, fields } => (name, fields),
        Outputs::Scalar { .. } => {
            assert(false);
            return Err(Error::in_function(raw, lookup.implementation_path.as_str(), none, SemanticErrorKind::UnknownLookupKey { key: lookup.key.clone() }));
        },
    };
    let mut names: Vec<String> = Vec::new();
    let mut f: usize = 0;
    while f < fields.len()
        invariant
            f <= fields.len(),
            strings_view(names@) == field_names(fields@).take(f as int),
        decreases fields.len() - f,
    {
        let ghost prev = strings_view(names@);
        names.push(fields[f].name.clone());
        assert(strings_view(names@) =~= prev.push(fields@[f as int].name@));
        assert(field_names(fields@).take(f + 1) =~= field_names(fields@).take(f as int).push(fields@[f as int].name@));
        f = f + 1;
    }
    assert(field_names(fields@).take(fields.len() as int) == field_names(fields@));
    let ghost spec_fields = field_names(lookup.definition.output_type->0.spec_fields());
    assert(spec_fields == strings_view(names@));
    let ghost spec_cases = match compile_lookup_spec(lookup, scope_view(scope@)) {
        Ok(v) => v.cases,
        Err(_) => seq![],
    };
    let mut cases: Vec<RecordLookupCase> = Vec::new();
    let mut m: usize = 0;
    while m < enum_def.values.len()
        invariant
            m <= enum_def.values.len(),
            lookup_resolved(lookup),
            enum_def == lookup.definition.input_type->0,
            spec_fields == strings_view(names@),
            spec_fields == field_names(lookup.definition.output_type->0.spec_fields()),
            names.len() == lookup.definition.output_type->0.spec_fields().len(),
            spec_cases.len() == enum_def.values.len(),
            forall|j: int| 0 <= j < enum_def.values.len() ==> #[trigger] spec_cases[j] == ({
                let member = enum_def.values@[j].name@;
                (member, Seq::new(spec_fields.len(), |g: int| cell_for(row_for(lookup.definition.values@, member)->0.value@, spec_fields[g])->0))
            }),
            cases_view(cases@) == spec_cases.take(m as int),
        decreases enum_def.values.len() - m,
    {
        let member = &enum_def.values[m].name;
        let row = row_index(&lookup.definition.values, member).unwrap();
        let cells = &lookup.definition.values[row].value;
        let mut values: Vec<Number> = Vec::new();
        let mut g: usize = 0;
        while g < names.len()
            invariant
                g <= names.len(),
                lookup_resolved(lookup),
                enum_def == lookup.definition.input_type->0,
                m < enum_def.values.len(),
                *member == enum_def.values@[m as int].name,
                row_for(lookup.definition.values@, member@) == Some(*cells_row(lookup, row)),
                *cells == cells_row(lookup, row).value,
                spec_fields == strings_view(names@),
                spec_fields == field_names(lookup.definition.output_type->0.spec_fields()),
                names.len() == lookup.definition.output_type->0.spec_fields().len(),
                numbers_view(values@) == Seq::new(spec_fields.len(), |h: int| cell_for(cells@, spec_fields[h])->0).take(g as int),
            decreases names.len() - g,
        {
            assert(strings_view(names@)[g as int] == names@[g as int]@);
            assert(spec_fields[g as int] == lookup.definition.output_type->0.spec_fields()[g as int].name@);
            let text = cell_text(cells, &names[g]).unwrap();
            let ghost prev = numbers_view(values@);
            let ghost whole = Seq::new(spec_fields.len(), |h: int| cell_for(cells@, spec_fields[h])->0);
            values.push(Number { lexeme: text });
            assert(numbers_view(values@) =~= prev.push(text@));
            assert(whole.take(g + 1) =~= whole.take(g as int).push(whole[g as int]));
            g = g + 1;
        }
        let ghost prev = cases_view(cases@);
        let case = RecordLookupCase { member: member.clone(), values };
        assert(numbers_view(case.values@) =~= Seq::new(spec_fields.len(), |h: int| cell_for(cells@, spec_fields[h])->0));
        cases.push(case);
        assert(cases_view(cases@) =~= prev.push(spec_cases[m as int]));
        assert(spec_cases.take(m + 1) =~= spec_cases.take(m as int).push(spec_cases[m as int]));
        m = m + 1;
    }
    let output = RecordType { name: record_name.clone(), fields: names };
    let output_copy = RecordType { name: record_name.clone(), fields: copy_strings(&output.fields) };
    let result = RecordLookup { key: scope[k].1.reference, enum_type: copy_enum_type(&enum_def.enum_type), output, cases };
    assert(cases_view(result.cases@) == spec_cases);
    Ok((result, output_copy))
}

pub open spec fn cells_row(l: &RawLookup, row: usize) -> &LookupValue {
    &l.definition.values@[row as int]
}

/// A copy of a list of strings.
pub fn copy_strings(v: &Vec<String>) -> (r: Vec<String>)
    ensures
        strings_view(r@) == strings_view(v@),
{
    let mut r: Vec<String> = Vec::new();
    let mut k: usize = 0;
    while k < v.len()
        invariant
            k <= v.len(),
            strings_view(r@) == strings_view(v@).take(k as int),
        decreases v.len() - k,
    {
        let ghost prev = strings_view(r@);
        r.push(v[k].clone());
        assert(strings_view(r@) =~= prev.push(v@[k as int]@));
        assert(strings_view(v@).take(k + 1) =~= strings_view(v@).take(k as int).push(v@[k as int]@));
        k = k + 1;
    }
    assert(strings_view(v@).take(v.len() as int) == strings_view(v@));
    r
}


/// Whether the names are in strictly ascending order.
pub open spec fn ascending(names: Seq<Seq<char>>) -> bool {
    forall|i: int, j: int| 0 <= i < j < names.len() ==> text_less(#[trigger] names[i], #[trigger] names[j])
}

/// The names of a set, each once, in ascending order.
pub open spec fn in_order(names: Set<Seq<char>>) -> Seq<Seq<char>> {
    choose|q: Seq<Seq<char>>| ascending(q) && q.to_set() == names
}

proof fn lemma_ascending_first(p: Seq<Seq<char>>, a: Seq<char>)
    requires
        ascending(p),
        p.contains(a),
    ensures
        a == p[0] || text_less(p[0], a),
{
    let i = choose|i: int| 0 <= i < p.len() && p[i] == a;
    if i > 0 {
        assert(text_less(p[0], p[i]));
    }
}

/// Two ascending sequences with the same names are equal.
pub proof fn lemma_ascending_unique(p: Seq<Seq<char>>, q: Seq<Seq<char>>)
    requires
        ascending(p),
        ascending(q),
        p.to_set() == q.to_set(),
    ensures
        p == q,
    decreases p.len(),
{
    if p.len() == 0 || q.len() == 0 {
        if q.len() > 0 {
            assert(q.to_set().contains(q[0]));
        }
        if p.len() > 0 {
            assert(p.to_set().contains(p[0]));
        }
        assert(p =~= q);
    } else {
        assert(q.to_set().contains(p[0]));
        assert(p.to_set().contains(q[0]));
        lemma_ascending_first(q, p[0]);
        lemma_ascending_first(p, q[0]);
        if p[0] != q[0] {
            lemma_text_less_transitive(p[0], q[0], p[0]);
            lemma_text_less_irreflexive(p[0]);
        }
        let p1 = p.drop_first();
        let q1 = q.drop_first();
        assert forall|a: Seq<char>| p1.to_set().contains(a) implies q1.to_set().contains(a) by {
            let i = choose|i: int| 0 <= i < p1.len() && p1[i] == a;
            assert(text_less(p[0], p[i + 1]));
            assert(q.to_set().contains(a)) by {
                assert(p.to_set().contains(a)) by {
                    assert(p[i + 1] == a);
                }
            }
            lemma_ascending_first(q, a);
            lemma_text_less_irreflexive(a);
            let j = choose|j: int| 0 <= j < q.len() && q[j] == a;
            assert(j != 0);
            assert(q1[j - 1] == a);
        }
        assert forall|a: Seq<char>| q1.to_set().contains(a) implies p1.to_set().contains(a) by {
            let i = choose|i: int| 0 <= i < q1.len() && q1[i] == a;
            assert(text_less(q[0], q[i + 1]));
            assert(p.to_set().contains(a)) by {
                assert(q.to_set().contains(a)) by {
                    assert(q[i + 1] == a);
                }
            }
            lemma_text_less_irreflexive(a);
            let j = choose|j: int| 0 <= j < p.len() && p[j] == a;
            assert(j != 0);
            assert(p1[j - 1] == a);
        }
        assert(p1.to_set() =~= q1.to_set());
        lemma_ascending_unique(p1, q1);
        assert(p =~= q) by {
            assert forall|i: int| 0 <= i < p.len() implies p[i] == q[i] by {
                if i > 0 {
                    assert(p[i] == p1[i - 1]);
                    assert(q[i] == q1[i - 1]);
                }
            }
        }
    }
}

/// An ascending sequence is the names of its set in order.
pub proof fn lemma_in_order(q: Seq<Seq<char>>)
    requires
        ascending(q),
    ensures
        in_order(q.to_set()) == q,
{
    let p = in_order(q.to_set());
    assert(ascending(p) && p.to_set() == q.to_set());
    lemma_ascending_unique(p, q);
}

/// Adds `x` to ascending names, in its place, unless it is there already.
pub(crate) fn insert_name(names: &mut Vec<String>, x: &String)
    requires
        ascending(strings_view(old(names)@)),
    ensures
        ascending(strings_view(final(names)@)),
        strings_view(final(names)@).to_set() == strings_view(old(names)@).to_set().insert(x@),
{
    let ghost v = strings_view(names@);
    let mut p: usize = 0;
    while p < names.len() && text_before(names[p].as_str(), x.as_str())
        invariant
            p <= names.len(),
            v == strings_view(names@),
            forall|i: int| 0 <= i < p ==> text_less(#[trigger] v[i], x@),
        decreases names.len() - p,
    {
        p = p + 1;
    }
    if p < names.len() && str_equal(names[p].as_str(), x.as_str()) {
        assert(v[p as int] == x@);
        assert(v.to_set().insert(x@) =~= v.to_set());
        return;
    }
    if p < names.len() {
        proof {
            lemma_text_less_total(v[p as int], x@);
        }
        assert(text_less(x@, v[p as int]));
    }
    names.insert(p, x.clone());
    let ghost w = strings_view(names@);
    assert(w =~= v.insert(p as int, x@));
    assert forall|i: int, j: int| 0 <= i < j < w.len() implies text_less(#[trigger] w[i], #[trigger] w[j]) by {
        if j < p {
            assert(w[i] == v[i] && w[j] == v[j]);
        } else if j == p {
            assert(w[j] == x@ && w[i] == v[i]);
        } else if i == p {
            assert(w[i] == x@ && w[j] == v[j - 1]);
            if j - 1 > p {
                assert(text_less(v[p as int], v[j - 1]));
                lemma_text_less_transitive(x@, v[p as int], v[j - 1]);
            }
        } else if i < p {
            assert(w[i] == v[i] && w[j] == v[j - 1]);
            assert(text_less(v[i], x@));
            if j - 1 == p {
                lemma_text_less_transitive(v[i], x@, v[p as int]);
            } else {
                assert(text_less(v[p as int], v[j - 1]));
                lemma_text_less_transitive(x@, v[p as int], v[j - 1]);
                lemma_text_less_transitive(v[i], x@, v[j - 1]);
            }
        } else {
            assert(w[i] == v[i - 1] && w[j] == v[j - 1]);
        }
    }
    assert forall|a: Seq<char>| w.to_set().contains(a) <==> v.to_set().insert(x@).contains(a) by {
        if w.contains(a) {
            let i = choose|i: int| 0 <= i < w.len() && w[i] == a;
            if i < p {
                assert(v[i] == a);
            } else if i > p {
                assert(v[i - 1] == a);
            }
        }
        if v.contains(a) {
            let i = choose|i: int| 0 <= i < v.len() && v[i] == a;
            if i < p {
                assert(w[i] == a);
            } else {
                assert(w[i + 1] == a);
            }
        }
        if a == x@ {
            assert(w[p as int] == a);
        }
    }
    assert(w.to_set() =~= v.to_set().insert(x@));
}

/// The distinct names, in ascending order.
pub fn names_in_order(names: &Vec<String>) -> (r: Vec<String>)
    ensures
        ascending(strings_view(r@)),
        strings_view(r@).to_set() == strings_view(names@).to_set(),
        strings_view(r@) == in_order(strings_view(names@).to_set()),
{
    let mut r: Vec<String> = Vec::new();
    let mut k: usize = 0;
    assert(strings_view(names@).take(0).to_set() =~= strings_view(r@).to_set());
    while k < names.len()
        invariant
            k <= names.len(),
            ascending(strings_view(r@)),
            strings_view(r@).to_set() == strings_view(names@).take(k as int).to_set(),
        decreases names.len() - k,
    {
        insert_name(&mut r, &names[k]);
        assert(strings_view(names@).take(k + 1) =~= strings_view(names@).take(k as int).push(names@[k as int]@));
        assert(strings_view(names@).take(k + 1).to_set() =~= strings_view(names@).take(k as int).to_set().insert(names@[k as int]@))
            by {
            assert forall|a: Seq<char>| #[trigger] strings_view(names@).take(k + 1).contains(a) <==> strings_view(names@).take(
                k as int,
            ).contains(a) || a == names@[k as int]@ by {
                let t = strings_view(names@).take(k + 1);
                if t.contains(a) {
                    let i = choose|i: int| 0 <= i < t.len() && t[i] == a;
                    if i < k {
                        assert(strings_view(names@).take(k as int)[i] == a);
                    }
                }
                if strings_view(names@).take(k as int).contains(a) {
                    let i = choose|i: int| 0 <= i < k && strings_view(names@).take(k as int)[i] == a;
                    assert(t[i] == a);
                }
                if a == names@[k as int]@ {
                    assert(t[k as int] == a);
                }
            }
        }
        k = k + 1;
    }
    assert(strings_view(names@).take(names.len() as int) == strings_view(names@));
    proof {
        lemma_in_order(strings_view(r@));
    }
    r
}

/// The names of a tree call's arguments.
pub open spec fn argument_names(arguments: Seq<(String, String)>) -> Seq<Seq<char>> {
    arguments.map_values(|a: (String, String)| a.0@)
}

/// The names of a compiled definition's inputs.
pub open spec fn formal_names(inputs: Seq<(Seq<char>, TypeView)>) -> Seq<Seq<char>> {
    inputs.map_values(|i: (Seq<char>, TypeView)| i.0)
}

/// The value given to tree input `formal`: the binding of the name its argument gives,
/// which must have the input's type.
pub open spec fn tree_argument(
    formal: (Seq<char>, TypeView),
    arguments: Seq<(String, String)>,
    scope: Seq<(Seq<char>, Reference, TypeView)>,
    names: Seq<Seq<char>>,
    index: int,
) -> Result<Reference, KindView> {
    let actual = cell_for(arguments, formal.0)->0;
    match scope_get(scope, actual) {
        Some((reference, t)) => if t == formal.1 {
            Ok(reference)
        } else {
            Err(KindView::TreeArgumentType(actual, value_type_label(t), formal.0, value_type_label(formal.1)))
        },
        None => match last_index(names, actual) {
            Some(i) => if i == index {
                Err(KindView::TreeSelfReference(actual))
            } else if i > index {
                Err(KindView::TreeForwardReference(actual))
            } else {
                Err(KindView::UnknownTreeArgument(actual))
            },
            None => Err(KindView::UnknownTreeArgument(actual)),
        },
    }
}

/// The values given to the tree's inputs, in the order of the inputs; the first
/// error wins.
pub open spec fn tree_arguments(
    formals: Seq<(Seq<char>, TypeView)>,
    arguments: Seq<(String, String)>,
    scope: Seq<(Seq<char>, Reference, TypeView)>,
    names: Seq<Seq<char>>,
    index: int,
) -> Result<Seq<Reference>, KindView>
    decreases formals.len(),
{
    if formals.len() == 0 {
        Ok(seq![])
    } else {
        match tree_arguments(formals.drop_last(), arguments, scope, names, index) {
            Ok(rs) => match tree_argument(formals.last(), arguments, scope, names, index) {
                Ok(r) => Ok(rs.push(r)),
                Err(e) => Err(e),
            },
            Err(e) => Err(e),
        }
    }
}

/// A tree call compiled in `scope`: the argument names must be the names of the
/// tree's inputs; else the error lists, in ascending order, the inputs without an
/// argument and the arguments without an input.
pub open spec fn compile_tree_call_spec(
    call: &RawTreeInvocation,
    scope: Seq<(Seq<char>, Reference, TypeView)>,
    names: Seq<Seq<char>>,
    index: int,
) -> Result<CallView, KindView> {
    let d = compile_definition(call.definition);
    let expected = formal_names(d.inputs).to_set();
    let actual = argument_names(call.arguments@).to_set();
    if expected != actual {
        Err(KindView::TreeArguments(d.name, in_order(expected.difference(actual)), in_order(actual.difference(expected))))
    } else {
        match tree_arguments(d.inputs, call.arguments@, scope, names, index) {
            Ok(arguments) => Ok(CallView { definition: d, arguments }),
            Err(e) => Err(e),
        }
    }
}

proof fn lemma_take_to_set(s: Seq<Seq<char>>, k: int)
    requires
        0 <= k < s.len(),
    ensures
        s.take(k + 1).to_set() == s.take(k).to_set().insert(s[k]),
{
    assert forall|a: Seq<char>| #[trigger] s.take(k + 1).contains(a) <==> s.take(k).contains(a) || a == s[k] by {
        let t = s.take(k + 1);
        if t.contains(a) {
            let i = choose|i: int| 0 <= i < t.len() && t[i] == a;
            if i < k {
                assert(s.take(k)[i] == a);
            }
        }
        if s.take(k).contains(a) {
            let i = choose|i: int| 0 <= i < k && s.take(k)[i] == a;
            assert(t[i] == a);
        }
        if a == s[k] {
            assert(t[k] == a);
        }
    }
    assert(s.take(k + 1).to_set() =~= s.take(k).to_set().insert(s[k]));
}

pub(crate) proof fn lemma_cell_for_some(cells: Seq<(String, String)>, field: Seq<char>)
    requires
        argument_names(cells).contains(field),
    ensures
        cell_for(cells, field) is Some,
    decreases cells.len(),
{
    if cells[0].0@ != field {
        let i = choose|i: int| 0 <= i < cells.len() && argument_names(cells)[i] == field;
        assert(argument_names(cells.drop_first())[i - 1] == field);
        lemma_cell_for_some(cells.drop_first(), field);
    }
}

proof fn lemma_tree_arguments_error(
    formals: Seq<(Seq<char>, TypeView)>,
    arguments: Seq<(String, String)>,
    scope: Seq<(Seq<char>, Reference, TypeView)>,
    names: Seq<Seq<char>>,
    index: int,
    m: int,
)
    requires
        0 <= m <= formals.len(),
        tree_arguments(formals.take(m), arguments, scope, names, index) is Err,
    ensures
        tree_arguments(formals, arguments, scope, names, index) == tree_arguments(formals.take(m), arguments, scope, names, index),
    decreases formals.len() - m,
{
    if m < formals.len() {
        assert(formals.take(m + 1).drop_last() == formals.take(m));
        lemma_tree_arguments_error(formals, arguments, scope, names, index, m + 1);
    } else {
        assert(formals.take(m) == formals);
    }
}

fn has_argument(arguments: &Vec<(String, String)>, name: &String) -> (r: bool)
    ensures
        r == argument_names(arguments@).contains(name@),
{
    let mut k: usize = 0;
    while k < arguments.len()
        invariant
            k <= arguments.len(),
            forall|j: int| 0 <= j < k ==> arguments@[j].0@ != name@,
        decreases arguments.len() - k,
    {
        if str_equal(arguments[k].0.as_str(), name.as_str()) {
            assert(argument_names(arguments@)[k as int] == name@);
            return true;
        }
        k = k + 1;
    }
    assert forall|j: int| 0 <= j < argument_names(arguments@).len() implies argument_names(arguments@)[j] != name@ by {
        assert(argument_names(arguments@)[j] == arguments@[j].0@);
    }
    false
}

fn has_input(inputs: &Vec<Input>, name: &String) -> (r: bool)
    ensures
        r == formal_names(inputs_view(inputs@)).contains(name@),
{
    let mut k: usize = 0;
    while k < inputs.len()
        invariant
            k <= inputs.len(),
            forall|j: int| 0 <= j < k ==> inputs@[j].name@ != name@,
        decreases inputs.len() - k,
    {
        if str_equal(inputs[k].name.as_str(), name.as_str()) {
            assert(formal_names(inputs_view(inputs@))[k as int] == name@);
            return true;
        }
        k = k + 1;
    }
    assert forall|j: int| 0 <= j < formal_names(inputs_view(inputs@)).len() implies formal_names(inputs_view(inputs@))[j] != name@ by {
        assert(formal_names(inputs_view(inputs@))[j] == inputs@[j].name@);
    }
    false
}

/// A copy of a value type.
pub fn copy_value_type(t: &ValueType) -> (r: ValueType)
    ensures
        r.type_view() == t.type_view(),
{
    match t {
        ValueType::Number => ValueType::Number,
        ValueType::Enum(e) => ValueType::Enum(copy_enum_type(e)),
        ValueType::Record(record) => ValueType::Record(RecordType { name: record.name.clone(), fields: copy_strings(&record.fields) }),
    }
}

/// Compiles a tree variable: the tree's definition, and for each of its inputs the
/// value in scope that its argument names, which must have the input's type.
pub fn compile_tree_call(
    raw: &RawFunction,
    call: &RawTreeInvocation,
    scope: &Vec<(String, Binding)>,
    names: &Vec<String>,
    variable_index: usize,
) -> (r: Result<(TreeCall, ValueType), Box<Error>>)
    requires
        tree_resolved(call.definition),
    ensures
        match r {
            Ok((t, value_type)) => compile_tree_call_spec(call, scope_view(scope@), strings_view(names@), variable_index as int)
                == Ok::<CallView, KindView>(t.call_view()) && value_type.type_view() == tree_output_type(call.definition.output_type),
            Err(err) => compile_tree_call_spec(call, scope_view(scope@), strings_view(names@), variable_index as int)
                == Err::<CallView, KindView>(err.kind.kind_view()) && err.specification_path@ == raw.specification_path@
                && err.function@ == raw.name@ && err.implementation_path@ == call.implementation_path@ && err.span == (Span {
                start: 0,
                end: 0,
            }) && err.source_location is None,
        },
{
    let none = Span { start: 0, end: 0 };
    let definition = compile_tree_definition(&call.definition);
    let ghost d = compile_definition(call.definition);
    let ghost expected = formal_names(d.inputs);
    let ghost actual = argument_names(call.arguments@);
    assert(d.inputs == inputs_view(definition.inputs@));
    assert(expected.len() == definition.inputs.len());

    let mut missing_names: Vec<String> = Vec::new();
    let mut k: usize = 0;
    assert(expected.take(0).to_set() =~= Set::<Seq<char>>::empty());
    assert(strings_view(missing_names@).to_set() =~= Set::<Seq<char>>::empty());
    while k < definition.inputs.len()
        invariant
            k <= definition.inputs.len(),
            expected == formal_names(inputs_view(definition.inputs@)),
            actual == argument_names(call.arguments@),
            strings_view(missing_names@).to_set() == expected.take(k as int).to_set().difference(actual.to_set()),
        decreases definition.inputs.len() - k,
    {
        proof {
            lemma_take_to_set(expected, k as int);
        }
        assert(expected[k as int] == definition.inputs@[k as int].name@);
        if !has_argument(&call.arguments, &definition.inputs[k].name) {
            let ghost prev = strings_view(missing_names@);
            missing_names.push(definition.inputs[k].name.clone());
            assert(strings_view(missing_names@) =~= prev.push(expected[k as int]));
            proof {
                lemma_take_to_set(strings_view(missing_names@), prev.len() as int);
                assert(strings_view(missing_names@).take(prev.len() + 1 as int) == strings_view(missing_names@));
                assert(strings_view(missing_names@).take(prev.len() as int) == prev);
            }
        }
        assert(strings_view(missing_names@).to_set() =~= expected.take(k + 1).to_set().difference(actual.to_set()));
        k = k + 1;
    }
    assert(expected.take(definition.inputs.len() as int) == expected);

    let mut unknown_names: Vec<String> = Vec::new();
    let mut k: usize = 0;
    assert(actual.take(0).to_set() =~= Set::<Seq<char>>::empty());
    assert(strings_view(unknown_names@).to_set() =~= Set::<Seq<char>>::empty());
    while k < call.arguments.len()
        invariant
            k <= call.arguments.len(),
            expected == formal_names(inputs_view(definition.inputs@)),
            actual == argument_names(call.arguments@),
            strings_view(unknown_names@).to_set() == actual.take(k as int).to_set().difference(expected.to_set()),
        decreases call.arguments.len() - k,
    {
        proof {
            lemma_take_to_set(actual, k as int);
        }
        assert(actual[k as int] == call.arguments@[k as int].0@);
        if !has_input(&definition.inputs, &call.arguments[k].0) {
            let ghost prev = strings_view(unknown_names@);
            unknown_names.push(call.arguments[k].0.clone());
            assert(strings_view(unknown_names@) =~= prev.push(actual[k as int]));
            proof {
                lemma_take_to_set(strings_view(unknown_names@), prev.len() as int);
                assert(strings_view(unknown_names@).take(prev.len() + 1 as int) == strings_view(unknown_names@));
                assert(strings_view(unknown_names@).take(prev.len() as int) == prev);
            }
        }
        assert(strings_view(unknown_names@).to_set() =~= actual.take(k + 1).to_set().difference(expected.to_set()));
        k = k + 1;
    }
    assert(actual.take(call.arguments.len() as int) == actual);

    if missing_names.len() > 0 || unknown_names.len() > 0 {
        proof {
            if missing_names.len() > 0 {
                assert(strings_view(missing_names@).to_set().contains(strings_view(missing_names@)[0]));
            } else {
                assert(strings_view(unknown_names@).to_set().contains(strings_view(unknown_names@)[0]));
            }
        }
        let missing = names_in_order(&missing_names);
        let unknown = names_in_order(&unknown_names);
        return Err(Error::in_function(
            raw,
            call.implementation_path.as_str(),
            none,
            SemanticErrorKind::TreeArguments { tree: definition.name.clone(), missing, unknown },
        ));
    }
    assert(expected.to_set() =~= actual.to_set()) by {
        assert forall|a: Seq<char>| expected.to_set().contains(a) implies actual.to_set().contains(a) by {
            if !actual.to_set().contains(a) {
                assert(strings_view(missing_names@).to_set().contains(a));
            }
        }
        assert forall|a: Seq<char>| actual.to_set().contains(a) implies expected.to_set().contains(a) by {
            if !expected.to_set().contains(a) {
                assert(strings_view(unknown_names@).to_set().contains(a));
            }
        }
    }

    let mut arguments: Vec<Reference> = Vec::new();
    let mut k: usize = 0;
    assert(d.inputs.take(0) =~= Seq::<(Seq<char>, TypeView)>::empty());
    while k < definition.inputs.len()
        invariant
            k <= definition.inputs.len(),
            none == (Span { start: 0, end: 0 }),
            d == compile_definition(call.definition),
            d.inputs == inputs_view(definition.inputs@),
            expected == formal_names(d.inputs),
            expected.to_set() == actual.to_set(),
            actual == argument_names(call.arguments@),
            tree_arguments(d.inputs.take(k as int), call.arguments@, scope_view(scope@), strings_view(names@), variable_index as int)
                == Ok::<Seq<Reference>, KindView>(arguments@),
        decreases definition.inputs.len() - k,
    {
        let formal = &definition.inputs[k];
        let ghost f = d.inputs[k as int];
        assert(f == (formal.name@, formal.value_type.type_view()));
        assert(d.inputs.take(k + 1).drop_last() == d.inputs.take(k as int));
        assert(d.inputs.take(k + 1).last() == f);
        assert(expected[k as int] == formal.name@);
        assert(expected.to_set().contains(formal.name@));
        proof {
            lemma_cell_for_some(call.arguments@, formal.name@);
        }
        let argument = match cell_text(&call.arguments, &formal.name) {
            Some(a) => a,
            None => {
                assert(false);
                String::new()
            },
        };
        let ghost spec_argument = tree_argument(f, call.arguments@, scope_view(scope@), strings_view(names@), variable_index as int);
        assert(cell_for(call.arguments@, f.0)->0 == argument@);
        assert(tree_arguments(d.inputs.take(k + 1), call.arguments@, scope_view(scope@), strings_view(names@), variable_index as int)
            == match spec_argument {
                Ok(r) => Ok(arguments@.push(r)),
                Err(e) => Err::<Seq<Reference>, KindView>(e),
            });
        match scope_index(scope, &argument) {
            Some(p) => {
                if !same_type(&scope[p].1.value_type, &formal.value_type) {
                    assert(spec_argument is Err);
                    proof {
                        lemma_tree_arguments_error(d.inputs, call.arguments@, scope_view(scope@), strings_view(names@), variable_index as int, k + 1);
                    }
                    assert(tree_arguments(d.inputs, call.arguments@, scope_view(scope@), strings_view(names@), variable_index as int) == Err::<Seq<Reference>, KindView>(spec_argument->Err_0));
                    let kind = SemanticErrorKind::TreeArgumentType {
                        name: argument.clone(),
                        actual: value_type_name(&scope[p].1.value_type),
                        input: formal.name.clone(),
                        expected: value_type_name(&formal.value_type),
                    };
                    assert(spec_argument == Err::<Reference, KindView>(kind.kind_view()));
                    return Err(Error::in_function(raw, call.implementation_path.as_str(), none, kind));
                }
                arguments.push(scope[p].1.reference);
            },
            None => {
                let kind = match last_index_of(names, &argument) {
                    Some(i) => if i == variable_index {
                        SemanticErrorKind::TreeSelfReference { name: argument.clone() }
                    } else if i > variable_index {
                        SemanticErrorKind::TreeForwardReference { name: argument.clone() }
                    } else {
                        SemanticErrorKind::UnknownTreeArgument { name: argument.clone() }
                    },
                    None => SemanticErrorKind::UnknownTreeArgument { name: argument.clone() },
                };
                proof {
                    lemma_tree_arguments_error(d.inputs, call.arguments@, scope_view(scope@), strings_view(names@), variable_index as int, k + 1);
                }
                return Err(Error::in_function(raw, call.implementation_path.as_str(), none, kind));
            },
        }
        k = k + 1;
    }
    assert(d.inputs.take(definition.inputs.len() as int) == d.inputs);
    let output = copy_value_type(&definition.output);
    Ok((TreeCall { definition, arguments }, output))
}

/// What a compiled variable is bound to.
#[derive(Debug, PartialEq)]
pub enum VariableValue {
    Expression(Expr),
    RecordLookup(RecordLookup),
    Tree(TreeCall),
}

pub enum ValueView {
    Expression(Term),
    Lookup(LookupView),
    Tree(CallView),
}

impl VariableValue {
    pub open spec fn value_view(&self) -> ValueView {
        match self {
            VariableValue::Expression(e) => ValueView::Expression(e.term()),
            VariableValue::RecordLookup(l) => ValueView::Lookup(l.lookup_view()),
            VariableValue::Tree(t) => ValueView::Tree(t.call_view()),
        }
    }

    /// The formula of an expression variable.
    pub fn as_expression(&self) -> (r: Option<&Expr>)
        ensures
            match self {
                VariableValue::Expression(e) => r == Some(e),
                _ => r is None,
            },
    {
        match self {
            VariableValue::Expression(e) => Some(e),
            VariableValue::RecordLookup(_) => None,
            VariableValue::Tree(_) => None,
        }
    }

    /// Whether the variable holds a number: a formula, or a tree with a scalar output.
    pub fn is_number(&self) -> (r: bool)
        ensures
            r == (self is Expression || (self matches VariableValue::Tree(t) && t.definition.output is Number)),
    {
        match self {
            VariableValue::Expression(_) => true,
            VariableValue::RecordLookup(_) => false,
            VariableValue::Tree(t) => match t.definition.output {
                ValueType::Number => true,
                _ => false,
            },
        }
    }
}

#[derive(Debug, PartialEq)]
pub struct Variable {
    pub name: String,
    pub value: VariableValue,
}

#[derive(Debug, PartialEq)]
pub struct Input {
    pub name: String,
    pub value_type: ValueType,
}

/// Where the function's result comes from.
#[derive(Clone, Copy, Debug, PartialEq, Eq, Structural)]
pub enum ResultBinding {
    Fields,
    RecordVariable(usize),
}

/// A compiled function: typed inputs and the variables in order.
#[derive(Debug, PartialEq)]
pub struct Function {
    pub inputs: Vec<Input>,
    pub variables: Vec<Variable>,
    pub result: ResultBinding,
}

pub open spec fn input_type_view(t: RawInputType) -> TypeView {
    match t {
        RawInputType::Number => TypeView::Number,
        RawInputType::Enum(d) => TypeView::Enum(d.enum_type.identity_view().0, d.enum_type.identity_view().1, d.enum_type.identity_view().2),
    }
}

/// The inputs as the first entries of the scope.
pub open spec fn input_scope(inputs: Seq<RawInput>) -> Seq<(Seq<char>, Reference, TypeView)> {
    Seq::new(inputs.len(), |k: int| (inputs[k].name@, Reference::Input(k as usize), input_type_view(inputs[k].value_type)))
}

/// The type of a variable: a number, or the record of its lookup.
pub open spec fn variable_type(v: RawVariable) -> TypeView {
    match v.value {
        RawVariableValue::Expression(_) => TypeView::Number,
        RawVariableValue::Lookup(l) => lookup_record(&*l),
        RawVariableValue::Tree(t) => tree_output_type(t.definition.output_type),
    }
}

/// The scope in which variable `j` is compiled: the inputs, then the variables before it.
pub open spec fn scope_at(raw: &RawFunction, j: int) -> Seq<(Seq<char>, Reference, TypeView)> {
    input_scope(raw.inputs@) + Seq::new(j as nat, |k: int| (raw.variables@[k].name@, Reference::Variable(k as usize), variable_type(raw.variables@[k])))
}

pub open spec fn variable_names(raw: &RawFunction) -> Seq<Seq<char>> {
    raw.variables@.map_values(|v: RawVariable| v.name@)
}

/// The first input, from `k` on, whose name an earlier input already has.
pub open spec fn duplicate_input(inputs: Seq<RawInput>, k: int) -> Option<int>
    decreases inputs.len() - k,
{
    if k < 0 || k >= inputs.len() {
        None
    } else if scope_get(input_scope(inputs.take(k)), inputs[k].name@) is Some {
        Some(k)
    } else {
        duplicate_input(inputs, k + 1)
    }
}

/// The formulas of the variables scanned in order for a repeated subformula.
pub open spec fn repeat_scan(vars: Seq<RawVariable>) -> (Option<(Occurrence, Occurrence)>, Seq<(Structure, Occurrence)>)
    decreases vars.len(),
{
    if vars.len() == 0 {
        (None, seq![])
    } else {
        let (f, o) = repeat_scan(vars.drop_last());
        if f is Some {
            (f, o)
        } else {
            match vars.last().value {
                RawVariableValue::Expression(e) => find_repeat(e.expression.node(), e.source_location, o),
                _ => (None, o),
            }
        }
    }
}

/// An error as values: implementation path, span, source location and kind.
pub type ErrorView = (Seq<char>, int, int, Option<SourceLocation>, KindView);

/// Variable `k` compiled in its scope.
pub open spec fn compile_variable(raw: &RawFunction, k: int) -> Result<ValueView, ErrorView> {
    let v = raw.variables@[k];
    let scope = scope_at(raw, k);
    if scope_get(scope, v.name@) is Some {
        Err(("variables"@, 0, 0, None, KindView::DuplicateName(v.name@)))
    } else {
        match v.value {
            RawVariableValue::Expression(e) => match compile_term(e.expression.node(), scope, variable_names(raw), k) {
                Ok(t) => Ok(ValueView::Expression(t)),
                Err((a, b, kind)) => Err((e.implementation_path@, a, b, None, kind)),
            },
            RawVariableValue::Lookup(l) => match compile_lookup_spec(&*l, scope) {
                Ok(lv) => Ok(ValueView::Lookup(lv)),
                Err(kind) => Err((l.implementation_path@, 0, 0, None, kind)),
            },
            RawVariableValue::Tree(t) => match compile_tree_call_spec(&*t, scope, variable_names(raw), k) {
                Ok(tv) => Ok(ValueView::Tree(tv)),
                Err(kind) => Err((t.implementation_path@, 0, 0, None, kind)),
            },
        }
    }
}

/// The first `j` variables compiled in order; the first error wins.
pub open spec fn compile_variables(raw: &RawFunction, j: int) -> Result<Seq<ValueView>, ErrorView>
    decreases j,
{
    if j <= 0 {
        Ok(seq![])
    } else {
        match compile_variables(raw, j - 1) {
            Ok(vs) => match compile_variable(raw, j - 1) {
                Ok(v) => Ok(vs.push(v)),
                Err(e) => Err(e),
            },
            Err(e) => Err(e),
        }
    }
}

/// The meaning of a function's implementation: the values of its variables, or the
/// first error, checking input names, then repeated subformulas, then each variable.
pub open spec fn compiled(raw: &RawFunction) -> Result<Seq<ValueView>, ErrorView> {
    match duplicate_input(raw.inputs@, 0) {
        Some(k) => Err(("inputs"@, 0, 0, None, KindView::DuplicateName(raw.inputs@[k].name@))),
        None => match repeat_scan(raw.variables@).0 {
            Some((first, later)) => Err((
                seq![],
                first.span.start as int,
                first.span.end as int,
                Some(first.source_location),
                KindView::RepeatedExpression(raw.specification_path@, later.source_location, later.span),
            )),
            None => compile_variables(raw, raw.variables.len() as int),
        },
    }
}

/// Every lookup of the implementation has resolved types and a complete table, and
/// every tree has resolved types and nodes consistent with them.
pub open spec fn definitions_resolved(raw: &RawFunction) -> bool {
    forall|k: int| 0 <= k < raw.variables.len() ==> match (#[trigger] raw.variables@[k]).value {
        RawVariableValue::Lookup(l) => lookup_resolved(&*l),
        RawVariableValue::Tree(t) => tree_resolved(t.definition),
        _ => true,
    }
}

pub open spec fn full_error_view(e: &Error) -> ErrorView {
    (e.implementation_path@, e.span.start as int, e.span.end as int, e.source_location, e.kind.kind_view())
}

/// Checks that no subformula that needs extraction is written twice.
pub fn validate_repeated_expressions(raw: &RawFunction) -> (r: Result<(), Box<Error>>)
    ensures
        match r {
            Ok(_) => repeat_scan(raw.variables@).0 is None,
            Err(err) => repeat_scan(raw.variables@).0 matches Some((first, later)) && full_error_view(&err) == (
                Seq::<char>::empty(),
                first.span.start as int,
                first.span.end as int,
                Some(first.source_location),
                KindView::RepeatedExpression(raw.specification_path@, later.source_location, later.span),
            ) && err.specification_path@ == raw.specification_path@ && err.function@ == raw.name@,
        },
{
    let mut occurrences: Vec<(StructuralExpr, Occurrence)> = Vec::new();
    let mut k: usize = 0;
    assert(raw.variables@.take(0) =~= Seq::<RawVariable>::empty());
    assert(occurrences_view(occurrences@) =~= Seq::<(Structure, Occurrence)>::empty());
    while k < raw.variables.len()
        invariant
            k <= raw.variables.len(),
            repeat_scan(raw.variables@.take(k as int)).0 is None,
            occurrences_view(occurrences@) == repeat_scan(raw.variables@.take(k as int)).1,
        decreases raw.variables.len() - k,
    {
        assert(raw.variables@.take(k + 1).drop_last() == raw.variables@.take(k as int));
        assert(raw.variables@.take(k + 1).last() == raw.variables@[k as int]);
        match &raw.variables[k].value {
            RawVariableValue::Expression(expression) => {
                match find_repeated_expression(&expression.expression, expression.source_location, &mut occurrences) {
                    Some((first, later)) => {
                        proof {
                            lemma_scan_found_in_prefix(raw.variables@, k + 1);
                        }
                        return Err(Error::at_source(
                            raw,
                            first.source_location,
                            first.span,
                            SemanticErrorKind::RepeatedExpression {
                                specification_path: raw.specification_path.clone(),
                                location: later.source_location,
                                span: later.span,
                            },
                        ));
                    },
                    None => {},
                }
            },
            _ => {},
        }
        k = k + 1;
    }
    assert(raw.variables@.take(raw.variables.len() as int) == raw.variables@);
    Ok(())
}

proof fn lemma_scan_found_in_prefix(vars: Seq<RawVariable>, m: int)
    requires
        0 <= m <= vars.len(),
        repeat_scan(vars.take(m)).0 is Some,
    ensures
        repeat_scan(vars) == repeat_scan(vars.take(m)),
    decreases vars.len() - m,
{
    if m < vars.len() {
        assert(vars.take(m + 1).drop_last() == vars.take(m));
        lemma_scan_found_in_prefix(vars, m + 1);
    } else {
        assert(vars.take(m) == vars);
    }
}


pub open spec fn values_view(vs: Seq<Variable>) -> Seq<ValueView> {
    vs.map_values(|v: Variable| v.value.value_view())
}

proof fn lemma_variables_error(raw: &RawFunction, j: int, m: int)
    requires
        0 <= j <= m,
        compile_variables(raw, j) is Err,
    ensures
        compile_variables(raw, m) == compile_variables(raw, j),
    decreases m - j,
{
    if j < m {
        lemma_variables_error(raw, j + 1, m);
    }
}

fn input_value_type(t: &RawInputType) -> (r: ValueType)
    ensures
        r.type_view() == input_type_view(*t),
{
    match t {
        RawInputType::Number => ValueType::Number,
        RawInputType::Enum(definition) => ValueType::Enum(copy_enum_type(&definition.enum_type)),
    }
}

/// Compiles a function's implementation: its inputs and, in order, its variables,
/// each resolved against the inputs and the variables before it.
pub fn compile(raw: &RawFunction) -> (r: Result<Function, Box<Error>>)
    requires
        definitions_resolved(raw),
    ensures
        match r {
            Ok(f) => {
                &&& compiled(raw) == Ok::<Seq<ValueView>, ErrorView>(values_view(f.variables@))
                &&& f.result == ResultBinding::Fields
                &&& f.inputs.len() == raw.inputs.len()
                &&& forall|k: int| 0 <= k < raw.inputs.len() ==> (#[trigger] f.inputs@[k]).name@ == raw.inputs@[k].name@
                    && f.inputs@[k].value_type.type_view() == input_type_view(raw.inputs@[k].value_type)
                &&& f.variables.len() == raw.variables.len()
                &&& forall|k: int| 0 <= k < raw.variables.len() ==> (#[trigger] f.variables@[k]).name@ == raw.variables@[k].name@
            },
            Err(err) => {
                &&& compiled(raw) == Err::<Seq<ValueView>, ErrorView>(full_error_view(&err))
                &&& err.specification_path@ == raw.specification_path@
                &&& err.function@ == raw.name@
            },
        },
{
    let mut scope: Vec<(String, Binding)> = Vec::new();
    let mut k: usize = 0;
    assert(input_scope(raw.inputs@.take(0)) =~= Seq::<(Seq<char>, Reference, TypeView)>::empty());
    assert(scope_view(scope@) =~= Seq::<(Seq<char>, Reference, TypeView)>::empty());
    while k < raw.inputs.len()
        invariant
            k <= raw.inputs.len(),
            scope_view(scope@) == input_scope(raw.inputs@.take(k as int)),
            duplicate_input(raw.inputs@, 0) == duplicate_input(raw.inputs@, k as int),
        decreases raw.inputs.len() - k,
    {
        let input = &raw.inputs[k];
        if scope_index(&scope, &input.name).is_some() {
            assert(duplicate_input(raw.inputs@, k as int) == Some(k as int));
            let span = Span { start: 0, end: 0 };
            return Err(Error::in_function(raw, "inputs", span, SemanticErrorKind::DuplicateName { name: input.name.clone() }));
        }
        let value_type = input_value_type(&input.value_type);
        let ghost prev = scope_view(scope@);
        scope.push((input.name.clone(), Binding { reference: Reference::Input(k), value_type }));
        assert(scope_view(scope@) =~= prev.push((input.name@, Reference::Input(k), input_type_view(input.value_type))));
        assert(input_scope(raw.inputs@.take(k + 1)) =~= input_scope(raw.inputs@.take(k as int)).push(
            (input.name@, Reference::Input(k), input_type_view(input.value_type)),
        ));
        k = k + 1;
    }
    assert(raw.inputs@.take(raw.inputs.len() as int) == raw.inputs@);

    validate_repeated_expressions(raw)?;

    let mut names: Vec<String> = Vec::new();
    let mut n: usize = 0;
    while n < raw.variables.len()
        invariant
            n <= raw.variables.len(),
            strings_view(names@) == variable_names(raw).take(n as int),
        decreases raw.variables.len() - n,
    {
        let ghost prev = strings_view(names@);
        names.push(raw.variables[n].name.clone());
        assert(strings_view(names@) =~= prev.push(raw.variables@[n as int].name@));
        assert(variable_names(raw).take(n + 1) =~= variable_names(raw).take(n as int).push(raw.variables@[n as int].name@));
        n = n + 1;
    }
    assert(variable_names(raw).take(raw.variables.len() as int) == variable_names(raw));

    let mut variables: Vec<Variable> = Vec::new();
    let mut j: usize = 0;
    assert(scope_at(raw, 0) =~= input_scope(raw.inputs@));
    assert(values_view(variables@) =~= Seq::<ValueView>::empty());
    while j < raw.variables.len()
        invariant
            j <= raw.variables.len(),
            definitions_resolved(raw),
            strings_view(names@) == variable_names(raw),
            scope_view(scope@) == scope_at(raw, j as int),
            compile_variables(raw, j as int) == Ok::<Seq<ValueView>, ErrorView>(values_view(variables@)),
            variables.len() == j,
            forall|i: int| 0 <= i < j ==> (#[trigger] variables@[i]).name@ == raw.variables@[i].name@,
            duplicate_input(raw.inputs@, 0) is None,
            repeat_scan(raw.variables@).0 is None,
        decreases raw.variables.len() - j,
    {
        let variable = &raw.variables[j];
        if scope_index(&scope, &variable.name).is_some() {
            proof {
                lemma_variables_error(raw, j + 1, raw.variables.len() as int);
            }
            let span = Span { start: 0, end: 0 };
            return Err(Error::in_function(raw, "variables", span, SemanticErrorKind::DuplicateName { name: variable.name.clone() }));
        }
        let (value, value_type) = match &variable.value {
            RawVariableValue::Expression(expression) => {
                match compile_expr(raw, expression, &expression.expression, &scope, &names, j) {
                    Ok(e) => (VariableValue::Expression(e), ValueType::Number),
                    Err(err) => {
                        proof {
                            lemma_variables_error(raw, j + 1, raw.variables.len() as int);
                        }
                        return Err(err);
                    },
                }
            },
            RawVariableValue::Lookup(lookup) => {
                assert(lookup_resolved(&*lookup)) by {
                    assert(raw.variables@[j as int] == *variable);
                }
                match compile_lookup(raw, lookup, &scope) {
                    Ok((l, t)) => (VariableValue::RecordLookup(l), ValueType::Record(t)),
                    Err(err) => {
                        proof {
                            lemma_variables_error(raw, j + 1, raw.variables.len() as int);
                        }
                        return Err(err);
                    },
                }
            },
            RawVariableValue::Tree(call) => {
                assert(tree_resolved(call.definition)) by {
                    assert(raw.variables@[j as int] == *variable);
                }
                match compile_tree_call(raw, call, &scope, &names, j) {
                    Ok((t, value_type)) => (VariableValue::Tree(t), value_type),
                    Err(err) => {
                        proof {
                            lemma_variables_error(raw, j + 1, raw.variables.len() as int);
                        }
                        return Err(err);
                    },
                }
            },
        };
        assert(value_type.type_view() == variable_type(*variable));
        let ghost prev_scope = scope_view(scope@);
        let ghost prev_values = values_view(variables@);
        scope.push((variable.name.clone(), Binding { reference: Reference::Variable(j), value_type }));
        let v = Variable { name: variable.name.clone(), value };
        let ghost vv = v.value.value_view();
        variables.push(v);
        assert(scope_view(scope@) =~= prev_scope.push((variable.name@, Reference::Variable(j), variable_type(*variable))));
        assert(scope_at(raw, j + 1) =~= scope_at(raw, j as int).push((variable.name@, Reference::Variable(j), variable_type(*variable))));
        assert(values_view(variables@) =~= prev_values.push(vv));
        j = j + 1;
    }

    let mut inputs: Vec<Input> = Vec::new();
    let mut i: usize = 0;
    while i < raw.inputs.len()
        invariant
            i <= raw.inputs.len(),
            inputs.len() == i,
            forall|x: int| 0 <= x < i ==> (#[trigger] inputs@[x]).name@ == raw.inputs@[x].name@
                && inputs@[x].value_type.type_view() == input_type_view(raw.inputs@[x].value_type),
        decreases raw.inputs.len() - i,
    {
        let input = &raw.inputs[i];
        inputs.push(Input { name: input.name.clone(), value_type: input_value_type(&input.value_type) });
        i = i + 1;
    }
    Ok(Function { inputs, variables, result: ResultBinding::Fields })
}


/// How a value type is named in messages.
pub open spec fn value_type_label(t: TypeView) -> Seq<char> {
    match t {
        TypeView::Number => "number"@,
        TypeView::Enum(_, name, _) => "enum `"@ + name + "`"@,
        TypeView::Record(name, _) => "record `"@ + name + "`"@,
    }
}

pub fn value_type_name(value_type: &ValueType) -> (r: String)
    ensures
        r@ == value_type_label(value_type.type_view()),
{
    match value_type {
        ValueType::Number => String::from_str("number"),
        ValueType::Enum(enum_type) => {
            let mut r = String::from_str("enum `");
            r.append(enum_type.name.as_str());
            r.append("`");
            r
        },
        ValueType::Record(record) => {
            let mut r = String::from_str("record `");
            r.append(record.name.as_str());
            r.append("`");
            r
        },
    }
}

pub open spec fn quoted(name: Seq<char>) -> Seq<char> {
    "`"@ + name + "`"@
}

/// The message of an error kind.
pub open spec fn kind_message(k: KindView) -> Seq<char> {
    match k {
        KindView::DuplicateName(name) => "duplicate name "@ + quoted(name),
        KindView::UnknownIdentifier(name) => "unknown identifier "@ + quoted(name),
        KindView::NonNumericIdentifier(name) => "identifier "@ + quoted(name) + " is not numeric"@,
        KindView::SelfReference(name) => "variable "@ + quoted(name) + " cannot reference itself"@,
        KindView::ForwardReference(name) => "variable "@ + quoted(name) + " cannot reference a later variable"@,
        KindView::UnknownRecordField(record, field) => "record "@ + quoted(record) + " has no field "@ + quoted(field),
        KindView::NotARecord(name) => quoted(name) + " is not a record"@,
        KindView::UnsupportedFunction(name) => "unsupported function "@ + quoted(name),
        KindView::WrongArity(name, expected, actual) => "function "@ + quoted(name) + " expects "@ + decimal(expected)
            + " argument(s), found "@ + decimal(actual),
        KindView::UnknownLookupKey(key) => "unknown lookup key "@ + quoted(key),
        KindView::LookupKeyType(key, expected) => "lookup key "@ + quoted(key) + " must have enum type "@ + quoted(expected),
        KindView::RepeatedExpression(path, location, span) => "expression is repeated at "@ + path + ":"@
            + decimal(location.line as nat) + ":"@ + decimal(saturated((location.column + span.start) as nat) as nat)
            + ".."@ + decimal(saturated((location.column + span.end) as nat) as nat)
            + "; it must be moved into a variable declared before it"@,
        KindView::TreeArguments(tree, missing, unknown) => "tree "@ + quoted(tree)
            + " argument names do not match its inputs; missing "@ + debug_list(missing) + ", unknown "@
            + debug_list(unknown),
        KindView::TreeSelfReference(name) => "tree argument "@ + quoted(name) + " cannot reference itself"@,
        KindView::TreeForwardReference(name) => "tree argument "@ + quoted(name) + " cannot reference a later variable"@,
        KindView::UnknownTreeArgument(name) => "tree argument references unknown value "@ + quoted(name),
        KindView::TreeArgumentType(name, actual, input, expected) => "tree argument "@ + quoted(name) + " has type "@
            + actual + ", but input "@ + quoted(input) + " requires "@ + expected,
    }
}

/// How `Debug` writes a character inside a quoted string.
pub open spec fn escaped(c: char) -> Seq<char> {
    if c == '"' {
        seq!['\\', '"']
    } else if c == '\\' {
        seq!['\\', '\\']
    } else if c == '\n' {
        seq!['\\', 'n']
    } else if c == '\r' {
        seq!['\\', 'r']
    } else if c == '\t' {
        seq!['\\', 't']
    } else if c == '\0' {
        seq!['\\', '0']
    } else {
        seq![c]
    }
}

pub open spec fn escaped_text(s: Seq<char>) -> Seq<char>
    decreases s.len(),
{
    if s.len() == 0 {
        seq![]
    } else {
        escaped_text(s.drop_last()) + escaped(s.last())
    }
}

/// A text as `Debug` writes it: quoted, with quotes, backslashes and control
/// characters escaped.
pub open spec fn debug_text(s: Seq<char>) -> Seq<char> {
    seq!['"'] + escaped_text(s) + seq!['"']
}

pub open spec fn debug_items(names: Seq<Seq<char>>) -> Seq<char>
    decreases names.len(),
{
    if names.len() == 0 {
        seq![]
    } else if names.len() == 1 {
        debug_text(names[0])
    } else {
        debug_items(names.drop_last()) + ", "@ + debug_text(names.last())
    }
}

/// A list of texts as `Debug` writes it: `["a", "b"]`.
pub open spec fn debug_list(names: Seq<Seq<char>>) -> Seq<char> {
    "["@ + debug_items(names) + "]"@
}

fn append_debug_text(r: &mut String, s: &str)
    ensures
        final(r)@ == old(r)@ + debug_text(s@),
{
    let chars = chars_of(s);
    push_char(r, '"');
    let ghost start = r@;
    let mut k: usize = 0;
    assert(chars@.take(0) =~= Seq::<char>::empty());
    while k < chars.len()
        invariant
            k <= chars.len(),
            chars@ == s@,
            r@ == start + escaped_text(chars@.take(k as int)),
        decreases chars.len() - k,
    {
        let c = chars[k];
        if c == '"' {
            push_char(r, '\\');
            push_char(r, '"');
        } else if c == '\\' {
            push_char(r, '\\');
            push_char(r, '\\');
        } else if c == '\n' {
            push_char(r, '\\');
            push_char(r, 'n');
        } else if c == '\r' {
            push_char(r, '\\');
            push_char(r, 'r');
        } else if c == '\t' {
            push_char(r, '\\');
            push_char(r, 't');
        } else if c == '\0' {
            push_char(r, '\\');
            push_char(r, '0');
        } else {
            push_char(r, c);
        }
        assert(chars@.take(k + 1).drop_last() =~= chars@.take(k as int));
        assert(chars@.take(k + 1).last() == c);
        assert(r@ =~= start + escaped_text(chars@.take(k + 1)));
        k = k + 1;
    }
    assert(chars@.take(chars.len() as int) == s@);
    push_char(r, '"');
    assert(r@ =~= old(r)@ + debug_text(s@));
}

pub(crate) fn append_debug_list(r: &mut String, names: &Vec<String>)
    ensures
        final(r)@ == old(r)@ + debug_list(strings_view(names@)),
{
    r.append("[");
    let ghost start = r@;
    let mut k: usize = 0;
    assert(strings_view(names@).take(0) =~= Seq::<Seq<char>>::empty());
    while k < names.len()
        invariant
            k <= names.len(),
            r@ == start + debug_items(strings_view(names@).take(k as int)),
        decreases names.len() - k,
    {
        let ghost v = strings_view(names@).take(k + 1);
        assert(v.drop_last() =~= strings_view(names@).take(k as int));
        assert(v.last() == names@[k as int]@);
        if k > 0 {
            r.append(", ");
        }
        append_debug_text(r, names[k].as_str());
        proof {
            if k == 0 {
                assert(v.len() == 1);
            }
        }
        assert(r@ =~= start + debug_items(v));
        k = k + 1;
    }
    assert(strings_view(names@).take(names.len() as int) == strings_view(names@));
    r.append("]");
    assert(r@ =~= old(r)@ + debug_list(strings_view(names@)));
}

fn append_quoted(r: &mut String, name: &str)
    ensures
        final(r)@ == old(r)@ + quoted(name@),
{
    r.append("`");
    r.append(name);
    r.append("`");
}

impl SemanticErrorKind {
    /// The message of the error kind.
    pub fn message(&self) -> (r: String)
        ensures
            r@ == kind_message(self.kind_view()),
    {
        let mut r = String::new();
        match self {
            SemanticErrorKind::DuplicateName { name } => {
                r.append("duplicate name ");
                append_quoted(&mut r, name.as_str());
            },
            SemanticErrorKind::UnknownIdentifier { name } => {
                r.append("unknown identifier ");
                append_quoted(&mut r, name.as_str());
            },
            SemanticErrorKind::NonNumericIdentifier { name } => {
                r.append("identifier ");
                append_quoted(&mut r, name.as_str());
                r.append(" is not numeric");
            },
            SemanticErrorKind::SelfReference { name } => {
                r.append("variable ");
                append_quoted(&mut r, name.as_str());
                r.append(" cannot reference itself");
            },
            SemanticErrorKind::ForwardReference { name } => {
                r.append("variable ");
                append_quoted(&mut r, name.as_str());
                r.append(" cannot reference a later variable");
            },
            SemanticErrorKind::UnknownRecordField { record, field } => {
                r.append("record ");
                append_quoted(&mut r, record.as_str());
                r.append(" has no field ");
                append_quoted(&mut r, field.as_str());
            },
            SemanticErrorKind::NotARecord { name } => {
                append_quoted(&mut r, name.as_str());
                r.append(" is not a record");
            },
            SemanticErrorKind::UnsupportedFunction { name } => {
                r.append("unsupported function ");
                append_quoted(&mut r, name.as_str());
            },
            SemanticErrorKind::WrongArity { name, expected, actual } => {
                r.append("function ");
                append_quoted(&mut r, name.as_str());
                r.append(" expects ");
                r.append(decimal_text(*expected).as_str());
                r.append(" argument(s), found ");
                r.append(decimal_text(*actual).as_str());
            },
            SemanticErrorKind::UnknownLookupKey { key } => {
                r.append("unknown lookup key ");
                append_quoted(&mut r, key.as_str());
            },
            SemanticErrorKind::LookupKeyType { key, expected } => {
                r.append("lookup key ");
                append_quoted(&mut r, key.as_str());
                r.append(" must have enum type ");
                append_quoted(&mut r, expected.as_str());
            },
            SemanticErrorKind::RepeatedExpression { specification_path, location, span } => {
                r.append("expression is repeated at ");
                r.append(specification_path.as_str());
                r.append(":");
                r.append(decimal_text(location.line).as_str());
                r.append(":");
                r.append(decimal_text(location.column.saturating_add(span.start)).as_str());
                r.append("..");
                r.append(decimal_text(location.column.saturating_add(span.end)).as_str());
                r.append("; it must be moved into a variable declared before it");
            },
            SemanticErrorKind::TreeArguments { tree, missing, unknown } => {
                r.append("tree ");
                append_quoted(&mut r, tree.as_str());
                r.append(" argument names do not match its inputs; missing ");
                append_debug_list(&mut r, missing);
                r.append(", unknown ");
                append_debug_list(&mut r, unknown);
            },
            SemanticErrorKind::TreeSelfReference { name } => {
                r.append("tree argument ");
                append_quoted(&mut r, name.as_str());
                r.append(" cannot reference itself");
            },
            SemanticErrorKind::TreeForwardReference { name } => {
                r.append("tree argument ");
                append_quoted(&mut r, name.as_str());
                r.append(" cannot reference a later variable");
            },
            SemanticErrorKind::UnknownTreeArgument { name } => {
                r.append("tree argument references unknown value ");
                append_quoted(&mut r, name.as_str());
            },
            SemanticErrorKind::TreeArgumentType { name, actual, input, expected } => {
                r.append("tree argument ");
                append_quoted(&mut r, name.as_str());
                r.append(" has type ");
                r.append(actual.as_str());
                r.append(", but input ");
                append_quoted(&mut r, input.as_str());
                r.append(" requires ");
                r.append(expected.as_str());
            },
        }
        r
    }
}

/// `path:line:start..end: kind` for an error at a source location, else
/// `path -> function name -> implementation_path:start..end: kind`.
pub open spec fn error_message(e: &Error) -> Seq<char> {
    match e.source_location {
        Some(location) => e.specification_path@ + ":"@ + decimal(location.line as nat) + ":"@
            + decimal(saturated((location.column + e.span.start) as nat) as nat) + ".."@
            + decimal(saturated((location.column + e.span.end) as nat) as nat) + ": "@ + kind_message(e.kind.kind_view()),
        None => e.specification_path@ + " -> function "@ + e.function@ + " -> "@ + e.implementation_path@ + ":"@
            + decimal(e.span.start as nat) + ".."@ + decimal(e.span.end as nat) + ": "@ + kind_message(e.kind.kind_view()),
    }
}

impl Error {
    /// The message of the error.
    pub fn message(&self) -> (r: String)
        ensures
            r@ == error_message(self),
    {
        let mut r = self.specification_path.clone();
        match self.source_location {
            Some(location) => {
                r.append(":");
                r.append(decimal_text(location.line).as_str());
                r.append(":");
                r.append(decimal_text(location.column.saturating_add(self.span.start)).as_str());
                r.append("..");
                r.append(decimal_text(location.column.saturating_add(self.span.end)).as_str());
            },
            None => {
                r.append(" -> function ");
                r.append(self.function.as_str());
                r.append(" -> ");
                r.append(self.implementation_path.as_str());
                r.append(":");
                r.append(decimal_text(self.span.start).as_str());
                r.append("..");
                r.append(decimal_text(self.span.end).as_str());
            },
        }
        r.append(": ");
        r.append(self.kind.message().as_str());
        r
    }
}


/// Every reference of a term names one of `inputs` inputs or one of the first
/// `variables` variables.
pub open spec fn refers_within(t: Term, inputs: nat, variables: nat) -> bool
    decreases t,
{
    match t {
        Term::Reference(r) | Term::Field(r, _) => reference_within(r, inputs, variables),
        Term::Unary(_, operand) => refers_within(*operand, inputs, variables),
        Term::Binary(_, left, right) => refers_within(*left, inputs, variables) && refers_within(*right, inputs, variables),
        Term::Call(_, args) => all_refer_within(args, inputs, variables),
        Term::Number(_) => true,
    }
}

pub open spec fn all_refer_within(args: Seq<Term>, inputs: nat, variables: nat) -> bool
    decreases args,
{
    if args.len() == 0 {
        true
    } else {
        all_refer_within(args.drop_last(), inputs, variables) && refers_within(args.last(), inputs, variables)
    }
}

pub open spec fn reference_within(r: Reference, inputs: nat, variables: nat) -> bool {
    match r {
        Reference::Input(i) => i < inputs,
        Reference::Variable(i) => i < variables,
    }
}

/// Every binding of the scope refers within the bounds.
pub open spec fn scope_within(scope: Seq<(Seq<char>, Reference, TypeView)>, inputs: nat, variables: nat) -> bool {
    forall|k: int| 0 <= k < scope.len() ==> reference_within(#[trigger] scope[k].1, inputs, variables)
}

proof fn lemma_scope_get_within(scope: Seq<(Seq<char>, Reference, TypeView)>, name: Seq<char>, inputs: nat, variables: nat)
    requires
        scope_within(scope, inputs, variables),
    ensures
        scope_get(scope, name) matches Some((r, _)) ==> reference_within(r, inputs, variables),
    decreases scope.len(),
{
    if scope.len() > 0 && scope[0].0 != name {
        assert(scope_within(scope.drop_first(), inputs, variables)) by {
            assert forall|k: int| 0 <= k < scope.drop_first().len() implies reference_within(#[trigger] scope.drop_first()[k].1, inputs, variables) by {
                assert(scope.drop_first()[k] == scope[k + 1]);
            }
        }
        lemma_scope_get_within(scope.drop_first(), name, inputs, variables);
    }
}

proof fn lemma_compiled_term_within(
    n: Node,
    scope: Seq<(Seq<char>, Reference, TypeView)>,
    names: Seq<Seq<char>>,
    index: int,
    inputs: nat,
    variables: nat,
)
    requires
        scope_within(scope, inputs, variables),
    ensures
        compile_term(n, scope, names, index) matches Ok(t) ==> refers_within(t, inputs, variables),
    decreases n,
{
    match n.shape {
        Shape::Variable(name) => lemma_scope_get_within(scope, name, inputs, variables),
        Shape::Field(base, _) => lemma_scope_get_within(scope, base, inputs, variables),
        Shape::Unary(_, operand) => lemma_compiled_term_within(*operand, scope, names, index, inputs, variables),
        Shape::Binary(_, left, right) => {
            lemma_compiled_term_within(*left, scope, names, index, inputs, variables);
            lemma_compiled_term_within(*right, scope, names, index, inputs, variables);
        },
        Shape::Call(_, args) => lemma_compiled_terms_within(args, scope, names, index, inputs, variables),
        Shape::Grouped(inner) => lemma_compiled_term_within(*inner, scope, names, index, inputs, variables),
        _ => {},
    }
}

proof fn lemma_compiled_terms_within(
    args: Seq<Node>,
    scope: Seq<(Seq<char>, Reference, TypeView)>,
    names: Seq<Seq<char>>,
    index: int,
    inputs: nat,
    variables: nat,
)
    requires
        scope_within(scope, inputs, variables),
    ensures
        compile_terms(args, scope, names, index) matches Ok(ts) ==> all_refer_within(ts, inputs, variables),
    decreases args,
{
    if args.len() > 0 {
        lemma_compiled_terms_within(args.drop_last(), scope, names, index, inputs, variables);
        lemma_compiled_term_within(args.last(), scope, names, index, inputs, variables);
        if let Ok(ts) = compile_terms(args, scope, names, index) {
            if let Ok(prefix) = compile_terms(args.drop_last(), scope, names, index) {
                assert(ts.drop_last() == prefix);
            }
        }
    }
}

proof fn lemma_tree_arguments_within(
    formals: Seq<(Seq<char>, TypeView)>,
    arguments: Seq<(String, String)>,
    scope: Seq<(Seq<char>, Reference, TypeView)>,
    names: Seq<Seq<char>>,
    index: int,
    inputs: nat,
    variables: nat,
)
    requires
        scope_within(scope, inputs, variables),
    ensures
        tree_arguments(formals, arguments, scope, names, index) matches Ok(rs) ==> forall|i: int| 0 <= i < rs.len() ==> reference_within(
            #[trigger] rs[i],
            inputs,
            variables,
        ),
    decreases formals.len(),
{
    if formals.len() > 0 {
        lemma_tree_arguments_within(formals.drop_last(), arguments, scope, names, index, inputs, variables);
        let actual = cell_for(arguments, formals.last().0)->0;
        lemma_scope_get_within(scope, actual, inputs, variables);
    }
}

/// A compiled value refers within the bounds when each of its formulas does.
pub open spec fn value_within(v: ValueView, inputs: nat, variables: nat) -> bool {
    match v {
        ValueView::Expression(t) => refers_within(t, inputs, variables),
        ValueView::Lookup(l) => reference_within(l.key, inputs, variables),
        ValueView::Tree(t) => forall|i: int| 0 <= i < t.arguments.len() ==> reference_within(#[trigger] t.arguments[i], inputs, variables),
    }
}

proof fn lemma_variables_within(raw: &RawFunction, j: int)
    requires
        0 <= j <= raw.variables.len(),
    ensures
        compile_variables(raw, j) matches Ok(vs) ==> vs.len() == j && forall|k: int| 0 <= k < j ==> value_within(
            #[trigger] vs[k],
            raw.inputs.len() as nat,
            k as nat,
        ),
    decreases j,
{
    if j > 0 {
        lemma_variables_within(raw, j - 1);
        let k = j - 1;
        let scope = scope_at(raw, k);
        assert(scope_within(scope, raw.inputs.len() as nat, k as nat)) by {
            assert forall|x: int| 0 <= x < scope.len() implies reference_within(#[trigger] scope[x].1, raw.inputs.len() as nat, k as nat) by {
                if x < raw.inputs.len() {
                    assert(scope[x].1 == Reference::Input(x as usize));
                } else {
                    assert(scope[x].1 == Reference::Variable((x - raw.inputs.len()) as usize));
                }
            }
        }
        let v = raw.variables@[k];
        match v.value {
            RawVariableValue::Expression(e) => {
                lemma_compiled_term_within(e.expression.node(), scope, variable_names(raw), k, raw.inputs.len() as nat, k as nat);
            },
            RawVariableValue::Lookup(l) => {
                lemma_scope_get_within(scope, l.key@, raw.inputs.len() as nat, k as nat);
            },
            RawVariableValue::Tree(t) => {
                let d = compile_definition(t.definition);
                lemma_tree_arguments_within(d.inputs, t.arguments@, scope, variable_names(raw), k, raw.inputs.len() as nat, k as nat);
            },
        }
    }
}

/// Law: in a compiled implementation, each variable refers only to the inputs and to
/// the variables declared before it.
pub proof fn law_variables_refer_to_earlier_values(raw: &RawFunction)
    ensures
        compiled(raw) matches Ok(vs) ==> vs.len() == raw.variables.len() && forall|k: int| 0 <= k < vs.len() ==> value_within(
            #[trigger] vs[k],
            raw.inputs.len() as nat,
            k as nat,
        ),
{
    lemma_variables_within(raw, raw.variables.len() as int);
}

/// `m` is `n` or one of its subformulas.
pub open spec fn contains_node(n: Node, m: Node) -> bool
    decreases n,
{
    n == m || match n.shape {
        Shape::Unary(_, operand) => contains_node(*operand, m),
        Shape::Grouped(inner) => contains_node(*inner, m),
        Shape::Binary(_, left, right) => contains_node(*left, m) || contains_node(*right, m),
        Shape::Call(_, args) => list_contains_node(args, m),
        _ => false,
    }
}

pub open spec fn list_contains_node(args: Seq<Node>, m: Node) -> bool
    decreases args,
{
    if args.len() == 0 {
        false
    } else {
        list_contains_node(args.drop_last(), m) || contains_node(args.last(), m)
    }
}

/// `b` holds `a` as its first entries.
pub open spec fn extends(a: Seq<(Structure, Occurrence)>, b: Seq<(Structure, Occurrence)>) -> bool {
    a.len() <= b.len() && b.subrange(0, a.len() as int) == a
}

proof fn lemma_extends_trans(a: Seq<(Structure, Occurrence)>, b: Seq<(Structure, Occurrence)>, c: Seq<(Structure, Occurrence)>)
    requires
        extends(a, b),
        extends(b, c),
    ensures
        extends(a, c),
{
    assert(c.subrange(0, a.len() as int) =~= b.subrange(0, a.len() as int));
}

proof fn lemma_recorded_extends(a: Seq<(Structure, Occurrence)>, b: Seq<(Structure, Occurrence)>, st: Structure)
    requires
        extends(a, b),
        recorded(a, st) is Some,
    ensures
        recorded(b, st) == recorded(a, st),
    decreases a.len(),
{
    assert(b[0] == a[0]);
    if a[0].0 != st {
        assert(b.drop_first().subrange(0, a.drop_first().len() as int) =~= a.drop_first());
        lemma_recorded_extends(a.drop_first(), b.drop_first(), st);
    }
}

proof fn lemma_recorded_push(a: Seq<(Structure, Occurrence)>, st: Structure, o: Occurrence)
    requires
        recorded(a, st) is None,
    ensures
        recorded(a.push((st, o)), st) == Some(o),
    decreases a.len(),
{
    if a.len() > 0 {
        assert(a.push((st, o)).drop_first() =~= a.drop_first().push((st, o)));
        lemma_recorded_push(a.drop_first(), st, o);
    }
}

proof fn lemma_find_records(n: Node, loc: SourceLocation, occ: Seq<(Structure, Occurrence)>)
    ensures
        extends(occ, find_repeat(n, loc, occ).1),
        find_repeat(n, loc, occ).0 is None ==> forall|m: Node| contains_node(n, m) && needs_extraction(m)
            ==> (#[trigger] recorded(find_repeat(n, loc, occ).1, structure(m))) is Some,
    decreases n,
{
    let here = occurrence_of(n, loc);
    assert(occ.subrange(0, occ.len() as int) =~= occ);
    let occ1 = if needs_extraction(n) && recorded(occ, structure(n)) is None {
        occ.push((structure(n), here))
    } else {
        occ
    };
    assert(extends(occ, occ1)) by {
        assert(occ.push((structure(n), here)).subrange(0, occ.len() as int) =~= occ);
    }
    if needs_extraction(n) && recorded(occ, structure(n)) is None {
        lemma_recorded_push(occ, structure(n), here);
    }
    let r = find_repeat(n, loc, occ);
    if !(needs_extraction(n) && recorded(occ, structure(n)) is Some) {
        match n.shape {
            Shape::Unary(_, operand) => {
                lemma_find_records(*operand, loc, occ1);
                lemma_extends_trans(occ, occ1, r.1);
                if r.0 is None {
                    assert forall|m: Node| contains_node(n, m) && needs_extraction(m) implies (#[trigger] recorded(r.1, structure(m))) is Some by {
                        if m == n {
                            lemma_recorded_extends(occ1, r.1, structure(n));
                        }
                    }
                }
            },
            Shape::Grouped(operand) => {
                lemma_find_records(*operand, loc, occ1);
                lemma_extends_trans(occ, occ1, r.1);
                if r.0 is None {
                    assert forall|m: Node| contains_node(n, m) && needs_extraction(m) implies (#[trigger] recorded(r.1, structure(m))) is Some by {
                        if m == n {
                            lemma_recorded_extends(occ1, r.1, structure(n));
                        }
                    }
                }
            },
            Shape::Binary(_, left, right) => {
                lemma_find_records(*left, loc, occ1);
                let (f, occ2) = find_repeat(*left, loc, occ1);
                lemma_extends_trans(occ, occ1, occ2);
                if f is None {
                    lemma_find_records(*right, loc, occ2);
                    lemma_extends_trans(occ, occ2, r.1);
                    lemma_extends_trans(occ1, occ2, r.1);
                    if r.0 is None {
                        assert forall|m: Node| contains_node(n, m) && needs_extraction(m) implies (#[trigger] recorded(r.1, structure(m))) is Some by {
                            if m == n {
                                lemma_recorded_extends(occ1, r.1, structure(n));
                            } else if contains_node(*left, m) {
                                assert(recorded(occ2, structure(m)) is Some);
                                lemma_recorded_extends(occ2, r.1, structure(m));
                            }
                        }
                    }
                }
            },
            Shape::Call(_, args) => {
                lemma_list_records(args, loc, occ1);
                lemma_extends_trans(occ, occ1, r.1);
                if r.0 is None {
                    assert forall|m: Node| contains_node(n, m) && needs_extraction(m) implies (#[trigger] recorded(r.1, structure(m))) is Some by {
                        if m == n {
                            lemma_recorded_extends(occ1, r.1, structure(n));
                        }
                    }
                }
            },
            _ => {
                if r.0 is None {
                    assert forall|m: Node| contains_node(n, m) && needs_extraction(m) implies (#[trigger] recorded(r.1, structure(m))) is Some by {
                    }
                }
            },
        }
    }
}

proof fn lemma_list_records(args: Seq<Node>, loc: SourceLocation, occ: Seq<(Structure, Occurrence)>)
    ensures
        extends(occ, find_repeat_list(args, loc, occ).1),
        find_repeat_list(args, loc, occ).0 is None ==> forall|m: Node| list_contains_node(args, m) && needs_extraction(m)
            ==> (#[trigger] recorded(find_repeat_list(args, loc, occ).1, structure(m))) is Some,
    decreases args,
{
    if args.len() == 0 {
        assert(occ.subrange(0, occ.len() as int) =~= occ);
    } else {
        lemma_list_records(args.drop_last(), loc, occ);
        let (f, o) = find_repeat_list(args.drop_last(), loc, occ);
        if f is None {
            lemma_find_records(args.last(), loc, o);
            let r = find_repeat_list(args, loc, occ);
            lemma_extends_trans(occ, o, r.1);
            if r.0 is None {
                assert forall|m: Node| list_contains_node(args, m) && needs_extraction(m) implies (#[trigger] recorded(r.1, structure(m))) is Some by {
                    if list_contains_node(args.drop_last(), m) {
                        assert(recorded(o, structure(m)) is Some);
                        lemma_recorded_extends(o, r.1, structure(m));
                    }
                }
            }
        }
    }
}

proof fn lemma_find_detects(n: Node, loc: SourceLocation, occ: Seq<(Structure, Occurrence)>, m: Node)
    requires
        contains_node(n, m),
        needs_extraction(m),
        recorded(occ, structure(m)) is Some,
    ensures
        find_repeat(n, loc, occ).0 is Some,
    decreases n,
{
    let here = occurrence_of(n, loc);
    if !(needs_extraction(n) && recorded(occ, structure(n)) is Some) {
        let occ1 = if needs_extraction(n) { occ.push((structure(n), here)) } else { occ };
        assert(extends(occ, occ1)) by {
            assert(occ.push((structure(n), here)).subrange(0, occ.len() as int) =~= occ);
            assert(occ.subrange(0, occ.len() as int) =~= occ);
        }
        lemma_recorded_extends(occ, occ1, structure(m));
        match n.shape {
            Shape::Unary(_, operand) => lemma_find_detects(*operand, loc, occ1, m),
            Shape::Grouped(operand) => lemma_find_detects(*operand, loc, occ1, m),
            Shape::Binary(_, left, right) => {
                if contains_node(*left, m) {
                    lemma_find_detects(*left, loc, occ1, m);
                } else {
                    lemma_find_records(*left, loc, occ1);
                    let (f, occ2) = find_repeat(*left, loc, occ1);
                    if f is None {
                        lemma_recorded_extends(occ1, occ2, structure(m));
                        lemma_find_detects(*right, loc, occ2, m);
                    }
                }
            },
            Shape::Call(_, args) => lemma_list_detects(args, loc, occ1, m),
            _ => {},
        }
    }
}

proof fn lemma_list_detects(args: Seq<Node>, loc: SourceLocation, occ: Seq<(Structure, Occurrence)>, m: Node)
    requires
        list_contains_node(args, m),
        needs_extraction(m),
        recorded(occ, structure(m)) is Some,
    ensures
        find_repeat_list(args, loc, occ).0 is Some,
    decreases args,
{
    if list_contains_node(args.drop_last(), m) {
        lemma_list_detects(args.drop_last(), loc, occ, m);
    } else {
        lemma_list_records(args.drop_last(), loc, occ);
        let (f, o) = find_repeat_list(args.drop_last(), loc, occ);
        if f is None {
            lemma_recorded_extends(occ, o, structure(m));
            lemma_find_detects(args.last(), loc, o, m);
        }
    }
}

/// The subformula `m` of variable `k`'s formula, if that variable is a formula.
pub open spec fn formula_holds(v: RawVariable, m: Node) -> bool {
    v.value matches RawVariableValue::Expression(e) && contains_node(e.expression.node(), m)
}

proof fn lemma_scan_records(vars: Seq<RawVariable>)
    ensures
        repeat_scan(vars).0 is None ==> forall|k: int, m: Node| 0 <= k < vars.len() && formula_holds(#[trigger] vars[k], m)
            && needs_extraction(m) ==> (#[trigger] recorded(repeat_scan(vars).1, structure(m))) is Some,
    decreases vars.len(),
{
    if vars.len() > 0 {
        let prefix = vars.drop_last();
        lemma_scan_records(prefix);
        let (f, o) = repeat_scan(prefix);
        let r = repeat_scan(vars);
        if f is None && r.0 is None {
            match vars.last().value {
                RawVariableValue::Expression(e) => {
                    lemma_find_records(e.expression.node(), e.source_location, o);
                },
                _ => {
                    assert(o.subrange(0, o.len() as int) =~= o);
                },
            }
            assert(extends(o, r.1));
            assert forall|k: int, m: Node| 0 <= k < vars.len() && formula_holds(#[trigger] vars[k], m) && needs_extraction(m) implies (#[trigger] recorded(r.1, structure(m))) is Some by {
                if k < vars.len() - 1 {
                    assert(prefix[k] == vars[k]);
                    assert(recorded(o, structure(m)) is Some);
                    lemma_recorded_extends(o, r.1, structure(m));
                }
            }
        }
    }
}

proof fn lemma_scan_detects(vars: Seq<RawVariable>, i: int, j: int, a: Node, b: Node)
    requires
        0 <= i < j < vars.len(),
        formula_holds(vars[i], a),
        formula_holds(vars[j], b),
        needs_extraction(a),
        needs_extraction(b),
        structure(a) == structure(b),
    ensures
        repeat_scan(vars).0 is Some,
    decreases vars.len(),
{
    let prefix = vars.drop_last();
    if j < vars.len() - 1 {
        assert(prefix[i] == vars[i] && prefix[j] == vars[j]);
        lemma_scan_detects(prefix, i, j, a, b);
    } else {
        lemma_scan_records(prefix);
        let (f, o) = repeat_scan(prefix);
        if f is None {
            assert(prefix[i] == vars[i]);
            assert(recorded(o, structure(a)) is Some);
            match vars.last().value {
                RawVariableValue::Expression(e) => {
                    lemma_find_detects(e.expression.node(), e.source_location, o, b);
                },
                _ => {},
            }
        }
    }
}

/// `n` holds `a` and `b` apart: in two different operands of one of its operations,
/// `a` in the earlier one.
pub open spec fn holds_apart(n: Node, a: Node, b: Node) -> bool
    decreases n,
{
    match n.shape {
        Shape::Unary(_, operand) => holds_apart(*operand, a, b),
        Shape::Grouped(inner) => holds_apart(*inner, a, b),
        Shape::Binary(_, left, right) => (contains_node(*left, a) && contains_node(*right, b)) || holds_apart(*left, a, b)
            || holds_apart(*right, a, b),
        Shape::Call(_, args) => list_holds_apart(args, a, b),
        _ => false,
    }
}

pub open spec fn list_holds_apart(args: Seq<Node>, a: Node, b: Node) -> bool
    decreases args,
{
    if args.len() == 0 {
        false
    } else {
        list_holds_apart(args.drop_last(), a, b) || holds_apart(args.last(), a, b) || (list_contains_node(
            args.drop_last(),
            a,
        ) && contains_node(args.last(), b))
    }
}

proof fn lemma_find_detects_pair(n: Node, loc: SourceLocation, occ: Seq<(Structure, Occurrence)>, a: Node, b: Node)
    requires
        holds_apart(n, a, b),
        needs_extraction(a),
        needs_extraction(b),
        structure(a) == structure(b),
    ensures
        find_repeat(n, loc, occ).0 is Some,
    decreases n,
{
    let here = occurrence_of(n, loc);
    if !(needs_extraction(n) && recorded(occ, structure(n)) is Some) {
        let occ1 = if needs_extraction(n) { occ.push((structure(n), here)) } else { occ };
        match n.shape {
            Shape::Unary(_, operand) => lemma_find_detects_pair(*operand, loc, occ1, a, b),
            Shape::Grouped(operand) => lemma_find_detects_pair(*operand, loc, occ1, a, b),
            Shape::Binary(_, left, right) => {
                let (f, occ2) = find_repeat(*left, loc, occ1);
                if holds_apart(*left, a, b) {
                    lemma_find_detects_pair(*left, loc, occ1, a, b);
                } else if f is None {
                    if holds_apart(*right, a, b) {
                        lemma_find_detects_pair(*right, loc, occ2, a, b);
                    } else {
                        lemma_find_records(*left, loc, occ1);
                        assert(recorded(occ2, structure(a)) is Some);
                        lemma_find_detects(*right, loc, occ2, b);
                    }
                }
            },
            Shape::Call(_, args) => lemma_list_detects_pair(args, loc, occ1, a, b),
            _ => {},
        }
    }
}

proof fn lemma_list_detects_pair(args: Seq<Node>, loc: SourceLocation, occ: Seq<(Structure, Occurrence)>, a: Node, b: Node)
    requires
        list_holds_apart(args, a, b),
        needs_extraction(a),
        needs_extraction(b),
        structure(a) == structure(b),
    ensures
        find_repeat_list(args, loc, occ).0 is Some,
    decreases args,
{
    let prefix = args.drop_last();
    if list_holds_apart(prefix, a, b) {
        lemma_list_detects_pair(prefix, loc, occ, a, b);
    } else {
        let (f, o) = find_repeat_list(prefix, loc, occ);
        if f is None {
            if holds_apart(args.last(), a, b) {
                lemma_find_detects_pair(args.last(), loc, o, a, b);
            } else {
                lemma_list_records(prefix, loc, occ);
                assert(recorded(o, structure(a)) is Some);
                lemma_find_detects(args.last(), loc, o, b);
            }
        }
    }
}

/// Variable `v` is a formula that holds `a` and `b` apart.
pub open spec fn formula_holds_apart(v: RawVariable, a: Node, b: Node) -> bool {
    v.value matches RawVariableValue::Expression(e) && holds_apart(e.expression.node(), a, b)
}

proof fn lemma_scan_detects_within(vars: Seq<RawVariable>, j: int, a: Node, b: Node)
    requires
        0 <= j < vars.len(),
        formula_holds_apart(vars[j], a, b),
        needs_extraction(a),
        needs_extraction(b),
        structure(a) == structure(b),
    ensures
        repeat_scan(vars).0 is Some,
    decreases vars.len(),
{
    let prefix = vars.drop_last();
    if j < vars.len() - 1 {
        assert(prefix[j] == vars[j]);
        lemma_scan_detects_within(prefix, j, a, b);
    } else {
        let (f, o) = repeat_scan(prefix);
        if f is None {
            match vars.last().value {
                RawVariableValue::Expression(e) => {
                    lemma_find_detects_pair(e.expression.node(), e.source_location, o, a, b);
                },
                _ => {},
            }
        }
    }
}

/// Law: a division written twice within one formula, in two different operands of an
/// operation (as in `x / y + x / y`), fails compilation with a repeated-expression
/// error too (unless two inputs share a name, which is reported first).
pub proof fn law_division_repeated_within_a_formula_is_rejected(raw: &RawFunction, j: int, a: Node, b: Node)
    requires
        0 <= j < raw.variables.len(),
        formula_holds_apart(raw.variables@[j], a, b),
        a.shape matches Shape::Binary(BinaryOp::Divide, _, _),
        structure(a) == structure(b),
        duplicate_input(raw.inputs@, 0) is None,
    ensures
        compiled(raw) matches Err((_, _, _, _, KindView::RepeatedExpression(..))),
{
    assert(b.shape matches Shape::Binary(BinaryOp::Divide, _, _));
    assert(needs_extraction(a));
    assert(needs_extraction(b));
    lemma_scan_detects_within(raw.variables@, j, a, b);
}

/// Law: a division must be named before it is written again. When two formulas of an
/// implementation each hold a division of the same structure, compiling it fails with
/// a repeated-expression error (unless two inputs share a name, which is reported
/// first).
pub proof fn law_repeated_division_is_rejected(raw: &RawFunction, i: int, j: int, a: Node, b: Node)
    requires
        0 <= i < j < raw.variables.len(),
        formula_holds(raw.variables@[i], a),
        formula_holds(raw.variables@[j], b),
        a.shape matches Shape::Binary(BinaryOp::Divide, _, _),
        structure(a) == structure(b),
        duplicate_input(raw.inputs@, 0) is None,
    ensures
        compiled(raw) matches Err((_, _, _, _, KindView::RepeatedExpression(..))),
{
    assert(b.shape matches Shape::Binary(BinaryOp::Divide, _, _));
    assert(needs_extraction(a));
    assert(needs_extraction(b));
    lemma_scan_detects(raw.variables@, i, j, a, b);
}

} // verus!
