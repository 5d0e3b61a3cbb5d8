//! Checks of a resolved decision tree definition: every node refers to inputs of the
//! right kind, every number is finite, leaves match the output, and match nodes cover
//! every member of their enumeration exactly once.

use vstd::prelude::*;
use vstd::string::*;
use crate::decimal::{is_finite_literal, literal_is_finite};
use crate::decision::{cases_resolved, input_index, input_position, node_resolved, output_fields, tree_resolved};
use crate::model::{
    DecisionTree as RawTree, DecisionTreeLeafValue, DecisionTreeMatchCase as RawCase, DecisionTreeSplit, EnumDefinition,
    OutputField, Outputs, TreeDefinition as RawTreeDefinition, TreeInput,
};
use crate::semantic::{argument_names, cell_for, field_names, lemma_cell_for_some, strings_view};
use crate::strings::{decimal, decimal_text, str_equal};
use crate::validate::member_names;

verus! {

/// What is wrong with a tree definition.
#[derive(Debug, PartialEq)]
pub enum TreeErrorKind {
    DuplicateInput(String),
    InputNotEnum(String),
    UnknownInputEnum { input: String, definition_name: String },
    OutputNotOutput,
    UnknownOutputType(String),
    NumericLeafRequired,
    RecordLeafRequired,
    RecordFields,
    NumericInputRequired(String),
    EnumInputRequired(String),
    MatchInputNotEnum(String),
    OverlappingMember(String),
    IncompleteMatch(String),
    UnknownInput(String),
    EmptyMembers,
    DuplicateMember(String),
    UnknownMember { member: String, enum_name: String },
    NonFiniteNumber(String),
}

pub enum TreeIssue {
    DuplicateInput(Seq<char>),
    InputNotEnum(Seq<char>),
    UnknownInputEnum(Seq<char>, Seq<char>),
    OutputNotOutput,
    UnknownOutputType(Seq<char>),
    NumericLeafRequired,
    RecordLeafRequired,
    RecordFields,
    NumericInputRequired(Seq<char>),
    EnumInputRequired(Seq<char>),
    MatchInputNotEnum(Seq<char>),
    OverlappingMember(Seq<char>),
    IncompleteMatch(Seq<char>),
    UnknownInput(Seq<char>),
    EmptyMembers,
    DuplicateMember(Seq<char>),
    UnknownMember(Seq<char>, Seq<char>),
    NonFiniteNumber(Seq<char>),
}

impl TreeErrorKind {
    pub open spec fn issue(&self) -> TreeIssue {
        match self {
            TreeErrorKind::DuplicateInput(n) => TreeIssue::DuplicateInput(n@),
            TreeErrorKind::InputNotEnum(n) => TreeIssue::InputNotEnum(n@),
            TreeErrorKind::UnknownInputEnum { input, definition_name } => TreeIssue::UnknownInputEnum(input@, definition_name@),
            TreeErrorKind::OutputNotOutput => TreeIssue::OutputNotOutput,
            TreeErrorKind::UnknownOutputType(n) => TreeIssue::UnknownOutputType(n@),
            TreeErrorKind::NumericLeafRequired => TreeIssue::NumericLeafRequired,
            TreeErrorKind::RecordLeafRequired => TreeIssue::RecordLeafRequired,
            TreeErrorKind::RecordFields => TreeIssue::RecordFields,
            TreeErrorKind::NumericInputRequired(n) => TreeIssue::NumericInputRequired(n@),
            TreeErrorKind::EnumInputRequired(n) => TreeIssue::EnumInputRequired(n@),
            TreeErrorKind::MatchInputNotEnum(n) => TreeIssue::MatchInputNotEnum(n@),
            TreeErrorKind::OverlappingMember(n) => TreeIssue::OverlappingMember(n@),
            TreeErrorKind::IncompleteMatch(n) => TreeIssue::IncompleteMatch(n@),
            TreeErrorKind::UnknownInput(n) => TreeIssue::UnknownInput(n@),
            TreeErrorKind::EmptyMembers => TreeIssue::EmptyMembers,
            TreeErrorKind::DuplicateMember(n) => TreeIssue::DuplicateMember(n@),
            TreeErrorKind::UnknownMember { member, enum_name } => TreeIssue::UnknownMember(member@, enum_name@),
            TreeErrorKind::NonFiniteNumber(n) => TreeIssue::NonFiniteNumber(n@),
        }
    }
}

/// An error in a tree definition: the tree, the path of the node, and what is wrong.
#[derive(Debug, PartialEq)]
pub struct TreeError {
    pub name: String,
    pub path: String,
    pub kind: TreeErrorKind,
}

pub open spec fn ticked(name: Seq<char>) -> Seq<char> {
    "`"@ + name + "`"@
}

/// The message of a fault of a tree.
pub open spec fn issue_message(i: TreeIssue) -> Seq<char> {
    match i {
        TreeIssue::DuplicateInput(n) => "duplicate input "@ + ticked(n),
        TreeIssue::InputNotEnum(n) => "input "@ + ticked(n) + " must reference an enum definition"@,
        TreeIssue::UnknownInputEnum(n, t) => "input "@ + ticked(n) + " references unknown enum definition "@ + ticked(t),
        TreeIssue::OutputNotOutput => "output must reference an output definition"@,
        TreeIssue::UnknownOutputType(n) => "unknown output type "@ + ticked(n),
        TreeIssue::NumericLeafRequired => "must be a numeric leaf"@,
        TreeIssue::RecordLeafRequired => "must be a record leaf"@,
        TreeIssue::RecordFields => "keys must exactly match output fields"@,
        TreeIssue::NumericInputRequired(n) => "input "@ + ticked(n) + " must be numeric for operator `lt`"@,
        TreeIssue::EnumInputRequired(n) => "input "@ + ticked(n) + " must be an enum for operator `in`"@,
        TreeIssue::MatchInputNotEnum(n) => "match input "@ + ticked(n) + " must be an enum"@,
        TreeIssue::OverlappingMember(n) => "match cases overlap on enum member "@ + ticked(n),
        TreeIssue::IncompleteMatch(n) => "match cases must cover every member of enum "@ + ticked(n) + " exactly once"@,
        TreeIssue::UnknownInput(n) => "unknown input "@ + ticked(n),
        TreeIssue::EmptyMembers => "requires at least one enum member"@,
        TreeIssue::DuplicateMember(n) => "repeats enum member "@ + ticked(n),
        TreeIssue::UnknownMember(m, e) => "unknown member "@ + ticked(m) + " of enum "@ + ticked(e),
        TreeIssue::NonFiniteNumber(n) => "number "@ + ticked(n) + " is not a finite f64"@,
    }
}

fn append_ticked(r: &mut String, name: &str)
    ensures
        final(r)@ == old(r)@ + ticked(name@),
{
    r.append("`");
    r.append(name);
    r.append("`");
}

impl TreeErrorKind {
    /// The message of the fault.
    pub fn message(&self) -> (r: String)
        ensures
            r@ == issue_message(self.issue()),
    {
        let mut r = String::new();
        match self {
            TreeErrorKind::DuplicateInput(n) => {
                r.append("duplicate input ");
                append_ticked(&mut r, n.as_str());
            },
            TreeErrorKind::InputNotEnum(n) => {
                r.append("input ");
                append_ticked(&mut r, n.as_str());
                r.append(" must reference an enum definition");
            },
            TreeErrorKind::UnknownInputEnum { input, definition_name } => {
                r.append("input ");
                append_ticked(&mut r, input.as_str());
                r.append(" references unknown enum definition ");
                append_ticked(&mut r, definition_name.as_str());
            },
            TreeErrorKind::OutputNotOutput => {
                r.append("output must reference an output definition");
            },
            TreeErrorKind::UnknownOutputType(n) => {
                r.append("unknown output type ");
                append_ticked(&mut r, n.as_str());
            },
            TreeErrorKind::NumericLeafRequired => {
                r.append("must be a numeric leaf");
            },
            TreeErrorKind::RecordLeafRequired => {
                r.append("must be a record leaf");
            },
            TreeErrorKind::RecordFields => {
                r.append("keys must exactly match output fields");
            },
            TreeErrorKind::NumericInputRequired(n) => {
                r.append("input ");
                append_ticked(&mut r, n.as_str());
                r.append(" must be numeric for operator `lt`");
            },
            TreeErrorKind::EnumInputRequired(n) => {
                r.append("input ");
                append_ticked(&mut r, n.as_str());
                r.append(" must be an enum for operator `in`");
            },
            TreeErrorKind::MatchInputNotEnum(n) => {
                r.append("match input ");
                append_ticked(&mut r, n.as_str());
                r.append(" must be an enum");
            },
            TreeErrorKind::OverlappingMember(n) => {
                r.append("match cases overlap on enum member ");
                append_ticked(&mut r, n.as_str());
            },
            TreeErrorKind::IncompleteMatch(n) => {
                r.append("match cases must cover every member of enum ");
                append_ticked(&mut r, n.as_str());
                r.append(" exactly once");
            },
            TreeErrorKind::UnknownInput(n) => {
                r.append("unknown input ");
                append_ticked(&mut r, n.as_str());
            },
            TreeErrorKind::EmptyMembers => {
                r.append("requires at least one enum member");
            },
            TreeErrorKind::DuplicateMember(n) => {
                r.append("repeats enum member ");
                append_ticked(&mut r, n.as_str());
            },
            TreeErrorKind::UnknownMember { member, enum_name } => {
                r.append("unknown member ");
                append_ticked(&mut r, member.as_str());
                r.append(" of enum ");
                append_ticked(&mut r, enum_name.as_str());
            },
            TreeErrorKind::NonFiniteNumber(n) => {
                r.append("number ");
                append_ticked(&mut r, n.as_str());
                r.append(" is not a finite f64");
            },
        }
        r
    }
}

impl TreeError {
    /// `tree `name` path: message`.
    pub fn message(&self) -> (r: String)
        ensures
            r@ == "tree "@ + ticked(self.name@) + " "@ + self.path@ + ": "@ + issue_message(self.kind.issue()),
    {
        let mut r = String::from_str("tree ");
        append_ticked(&mut r, self.name.as_str());
        r.append(" ");
        r.append(self.path.as_str());
        r.append(": ");
        r.append(self.kind.message().as_str());
        r
    }
}

/// Whether a number as written (an optional minus sign, then a decimal literal)
/// denotes a finite binary64 value.
pub open spec fn number_finite(n: Seq<char>) -> bool {
    let b = vstd::utf8::encode_utf8(n);
    if b.len() > 0 && b[0] == 45 {
        literal_is_finite(b.drop_first())
    } else {
        literal_is_finite(b)
    }
}

/// The output is resolved and every enumeration input has its definition.
pub open spec fn tree_types_resolved(d: RawTreeDefinition) -> bool {
    &&& d.output_type is Some
    &&& forall|k: int| 0 <= k < d.inputs.len() ==> !((#[trigger] d.inputs@[k]) matches TreeInput::Enum { definition: None, .. })
}

/// What is wrong with member `k` of a member list: it repeats an earlier one, or it is
/// not a member of the enumeration.
pub open spec fn member_issue(e: EnumDefinition, members: Seq<String>, k: int) -> Option<TreeIssue> {
    if strings_view(members.take(k)).contains(members[k]@) {
        Some(TreeIssue::DuplicateMember(members[k]@))
    } else if !member_names(e.values@).contains(members[k]@) {
        Some(TreeIssue::UnknownMember(members[k]@, e.enum_type.name@))
    } else {
        None
    }
}

pub open spec fn first_member_issue(e: EnumDefinition, members: Seq<String>, n: int) -> Option<TreeIssue>
    decreases n,
{
    if n <= 0 {
        None
    } else {
        match first_member_issue(e, members, n - 1) {
            Some(i) => Some(i),
            None => member_issue(e, members, n - 1),
        }
    }
}

/// What is wrong with a list of enumeration members: none, or the first fault in order.
pub open spec fn members_issue(e: EnumDefinition, members: Seq<String>) -> Option<TreeIssue> {
    if members.len() == 0 {
        Some(TreeIssue::EmptyMembers)
    } else {
        first_member_issue(e, members, members.len() as int)
    }
}

pub open spec fn first_nonfinite(cells: Seq<(String, String)>, n: int) -> Option<Seq<char>>
    decreases n,
{
    if n <= 0 {
        None
    } else {
        match first_nonfinite(cells, n - 1) {
            Some(v) => Some(v),
            None => if number_finite(cells[n - 1].1@) {
                None
            } else {
                Some(cells[n - 1].1@)
            },
        }
    }
}

/// What is wrong with a leaf: its shape must be that of the output, a record leaf must
/// give exactly the output's fields, and its numbers must be finite.
pub open spec fn leaf_issue(output: Option<Outputs>, leaf: DecisionTreeLeafValue) -> Option<TreeIssue> {
    match (output, leaf) {
        (Some(Outputs::Scalar { .. }), DecisionTreeLeafValue::Number(n)) => if number_finite(n@) {
            None
        } else {
            Some(TreeIssue::NonFiniteNumber(n@))
        },
        (Some(Outputs::Scalar { .. }), DecisionTreeLeafValue::Record(_)) => Some(TreeIssue::NumericLeafRequired),
        (Some(Outputs::Record { fields, .. }), DecisionTreeLeafValue::Record(cells)) => if argument_names(cells@).to_set()
            != field_names(fields@).to_set() {
            Some(TreeIssue::RecordFields)
        } else {
            match first_nonfinite(cells@, cells.len() as int) {
                Some(v) => Some(TreeIssue::NonFiniteNumber(v)),
                None => None,
            }
        },
        (Some(Outputs::Record { .. }), DecisionTreeLeafValue::Number(_)) => Some(TreeIssue::RecordLeafRequired),
        (None, _) => None,
    }
}

/// What is wrong with a split's test: its input must exist and have the kind the
/// operator needs; a bound must be finite and members must be valid.
pub open spec fn split_issue(inputs: Seq<TreeInput>, split: DecisionTreeSplit) -> Option<TreeIssue> {
    match split {
        DecisionTreeSplit::LessThan { input, value } => match input_position(inputs, input@) {
            None => Some(TreeIssue::UnknownInput(input@)),
            Some(k) => if !(inputs[k] is Number) {
                Some(TreeIssue::NumericInputRequired(input@))
            } else if !number_finite(value@) {
                Some(TreeIssue::NonFiniteNumber(value@))
            } else {
                None
            },
        },
        DecisionTreeSplit::EnumIn { input, values } => match input_position(inputs, input@) {
            None => Some(TreeIssue::UnknownInput(input@)),
            Some(k) => match inputs[k] {
                TreeInput::Enum { definition: Some(e), .. } => members_issue(e, values@),
                _ => Some(TreeIssue::EnumInputRequired(input@)),
            },
        },
    }
}

/// The members named by the cases.
pub open spec fn covered(cases: Seq<RawCase>) -> Set<Seq<char>>
    decreases cases.len(),
{
    if cases.len() == 0 {
        Set::empty()
    } else {
        covered(cases.drop_last()).union(strings_view(cases.last().values@).to_set())
    }
}

/// The first of the members that is already in `before`.
pub open spec fn first_overlap(members: Seq<String>, before: Set<Seq<char>>, n: int) -> Option<Seq<char>>
    decreases n,
{
    if n <= 0 {
        None
    } else {
        match first_overlap(members, before, n - 1) {
            Some(m) => Some(m),
            None => if before.contains(members[n - 1]@) {
                Some(members[n - 1]@)
            } else {
                None
            },
        }
    }
}

pub open spec fn case_path(path: Seq<char>, i: int) -> Seq<char> {
    path + ".match.cases["@ + decimal(i as nat) + "]"@
}

/// The first fault of a node, with the path where it is reported: the node's own test,
/// then its subtrees in order.
pub open spec fn node_issue(d: RawTreeDefinition, node: RawTree, path: Seq<char>) -> Option<(Seq<char>, TreeIssue)>
    decreases node, 0int,
{
    match node {
        RawTree::Leaf(leaf) => match leaf_issue(d.output_type, leaf) {
            Some(i) => Some((path, i)),
            None => None,
        },
        RawTree::Split { split, yes, no } => match split_issue(d.inputs@, split) {
            Some(i) => Some((path, i)),
            None => match node_issue(d, *yes, path + ".yes"@) {
                Some(e) => Some(e),
                None => node_issue(d, *no, path + ".no"@),
            },
        },
        RawTree::Match { input, cases } => match input_position(d.inputs@, input@) {
            None => Some((path, TreeIssue::UnknownInput(input@))),
            Some(k) => match d.inputs@[k] {
                TreeInput::Enum { definition: Some(e), .. } => match cases_issue(d, e, cases@, path) {
                    Some(x) => Some(x),
                    None => if covered(cases@) != member_names(e.values@).to_set() {
                        Some((path, TreeIssue::IncompleteMatch(e.enum_type.name@)))
                    } else {
                        None
                    },
                },
                _ => Some((path, TreeIssue::MatchInputNotEnum(input@))),
            },
        },
    }
}

/// The first fault of the cases of a match: for each case in order, its members, then
/// members already covered by an earlier case, then its subtree.
pub open spec fn cases_issue(d: RawTreeDefinition, e: EnumDefinition, cases: Seq<RawCase>, path: Seq<char>) -> Option<
    (Seq<char>, TreeIssue),
>
    decreases cases, cases.len(),
{
    if cases.len() == 0 {
        None
    } else {
        match cases_issue(d, e, cases.drop_last(), path) {
            Some(x) => Some(x),
            None => {
                let i = cases.len() - 1;
                let c = cases.last();
                match members_issue(e, c.values@) {
                    Some(x) => Some((case_path(path, i), x)),
                    None => match first_overlap(c.values@, covered(cases.drop_last()), c.values.len() as int) {
                        Some(m) => Some((path, TreeIssue::OverlappingMember(m))),
                        None => node_issue(d, *c.subtree, case_path(path, i) + ".then"@),
                    },
                }
            },
        }
    }
}

fn tree_error(definition: &RawTreeDefinition, path: &str, kind: TreeErrorKind) -> (r: TreeError)
    ensures
        r.name@ == definition.name@,
        r.path@ == path@,
        r.kind == kind,
{
    TreeError { name: definition.name.clone(), path: path.to_owned(), kind }
}

/// Checks that a number of a tree is finite.
pub fn validate_tree_number(definition: &RawTreeDefinition, path: &str, number: &String) -> (r: Result<(), TreeError>)
    ensures
        r is Ok <==> number_finite(number@),
        r matches Err(e) ==> e.name@ == definition.name@ && e.path@ == path@ && e.kind.issue() == TreeIssue::NonFiniteNumber(number@),
{
    let b = number.as_str().as_bytes();
    assert(b@ == vstd::utf8::encode_utf8(number@));
    let finite = if b.len() > 0 && b[0] == 45 {
        let rest = vstd::slice::slice_subrange(b, 1, b.len());
        assert(rest@ =~= b@.drop_first());
        is_finite_literal(rest)
    } else {
        is_finite_literal(b)
    };
    if finite {
        Ok(())
    } else {
        Err(tree_error(definition, path, TreeErrorKind::NonFiniteNumber(number.clone())))
    }
}

/// The names of an enumeration's members, in order.
pub(crate) fn enum_member_names(e: &EnumDefinition) -> (r: Vec<String>)
    ensures
        strings_view(r@) == member_names(e.values@),
{
    let mut r: Vec<String> = Vec::new();
    let mut k: usize = 0;
    while k < e.values.len()
        invariant
            k <= e.values.len(),
            strings_view(r@) == member_names(e.values@).take(k as int),
        decreases e.values.len() - k,
    {
        let ghost prev = strings_view(r@);
        r.push(e.values[k].name.clone());
        assert(strings_view(r@) =~= prev.push(e.values@[k as int].name@));
        assert(member_names(e.values@).take(k + 1) =~= member_names(e.values@).take(k as int).push(e.values@[k as int].name@));
        k = k + 1;
    }
    assert(member_names(e.values@).take(e.values.len() as int) =~= member_names(e.values@));
    r
}

/// Whether `x` is among the first `n` names.
pub(crate) fn among(names: &Vec<String>, n: usize, x: &String) -> (r: bool)
    requires
        n <= names.len(),
    ensures
        r == strings_view(names@).take(n as int).contains(x@),
{
    let mut k: usize = 0;
    while k < n
        invariant
            k <= n <= names.len(),
            forall|j: int| 0 <= j < k ==> names@[j]@ != x@,
        decreases n - k,
    {
        if str_equal(names[k].as_str(), x.as_str()) {
            assert(strings_view(names@).take(n as int)[k as int] == x@);
            return true;
        }
        k = k + 1;
    }
    assert forall|j: int| 0 <= j < n implies strings_view(names@).take(n as int)[j] != x@ by {
        assert(strings_view(names@).take(n as int)[j] == names@[j]@);
    }
    false
}

/// Whether two lists hold the same names.
pub(crate) fn same_names(a: &Vec<String>, b: &Vec<String>) -> (r: bool)
    ensures
        r == (strings_view(a@).to_set() == strings_view(b@).to_set()),
{
    let mut k: usize = 0;
    while k < a.len()
        invariant
            k <= a.len(),
            forall|j: int| 0 <= j < k ==> strings_view(b@).contains(#[trigger] strings_view(a@)[j]),
        decreases a.len() - k,
    {
        if !among(b, b.len(), &a[k]) {
            assert(strings_view(b@).take(b.len() as int) == strings_view(b@));
            assert(strings_view(a@)[k as int] == a@[k as int]@);
            assert(strings_view(a@).to_set().contains(a@[k as int]@));
            assert(!strings_view(b@).to_set().contains(a@[k as int]@));
            return false;
        }
        assert(strings_view(b@).take(b.len() as int) == strings_view(b@));
        k = k + 1;
    }
    let mut k: usize = 0;
    while k < b.len()
        invariant
            k <= b.len(),
            forall|j: int| 0 <= j < a.len() ==> strings_view(b@).contains(#[trigger] strings_view(a@)[j]),
            forall|j: int| 0 <= j < k ==> strings_view(a@).contains(#[trigger] strings_view(b@)[j]),
        decreases b.len() - k,
    {
        if !among(a, a.len(), &b[k]) {
            assert(strings_view(a@).take(a.len() as int) == strings_view(a@));
            assert(strings_view(b@)[k as int] == b@[k as int]@);
            assert(strings_view(b@).to_set().contains(b@[k as int]@));
            assert(!strings_view(a@).to_set().contains(b@[k as int]@));
            return false;
        }
        assert(strings_view(a@).take(a.len() as int) == strings_view(a@));
        k = k + 1;
    }
    assert forall|x: Seq<char>| strings_view(a@).contains(x) <==> strings_view(b@).contains(x) by {
        if strings_view(a@).contains(x) {
            let j = choose|j: int| 0 <= j < a.len() && strings_view(a@)[j] == x;
        }
        if strings_view(b@).contains(x) {
            let j = choose|j: int| 0 <= j < b.len() && strings_view(b@)[j] == x;
        }
    }
    assert(strings_view(a@).to_set() =~= strings_view(b@).to_set());
    true
}

/// Checks a list of members of an enumeration: at least one, none twice, each a member.
pub fn validate_tree_members(definition: &RawTreeDefinition, e: &EnumDefinition, members: &Vec<String>, path: &str) -> (r: Result<
    (),
    TreeError,
>)
    ensures
        match r {
            Ok(_) => members_issue(*e, members@) is None,
            Err(err) => members_issue(*e, members@) == Some(err.kind.issue()) && err.name@ == definition.name@ && err.path@ == path@,
        },
{
    if members.len() == 0 {
        return Err(tree_error(definition, path, TreeErrorKind::EmptyMembers));
    }
    let names = enum_member_names(e);
    let mut k: usize = 0;
    while k < members.len()
        invariant
            k <= members.len(),
            strings_view(names@) == member_names(e.values@),
            first_member_issue(*e, members@, k as int) is None,
        decreases members.len() - k,
    {
        assert(strings_view(members@.take(k as int)) =~= strings_view(members@).take(k as int));
        if among(members, k, &members[k]) {
            proof {
                lemma_first_member_issue_prefix(*e, members@, k + 1, members.len() as int);
            }
            return Err(tree_error(definition, path, TreeErrorKind::DuplicateMember(members[k].clone())));
        }
        if !among(&names, names.len(), &members[k]) {
            assert(strings_view(names@).take(names.len() as int) == strings_view(names@));
            proof {
                lemma_first_member_issue_prefix(*e, members@, k + 1, members.len() as int);
            }
            return Err(
                tree_error(definition, path, TreeErrorKind::UnknownMember { member: members[k].clone(), enum_name: e.enum_type.name.clone() }),
            );
        }
        assert(strings_view(names@).take(names.len() as int) == strings_view(names@));
        k = k + 1;
    }
    Ok(())
}

/// The input of the definition named `name`.
pub fn tree_input<'a>(definition: &'a RawTreeDefinition, name: &String, path: &str) -> (r: Result<&'a TreeInput, TreeError>)
    ensures
        match r {
            Ok(input) => input_position(definition.inputs@, name@) matches Some(k) && *input == definition.inputs@[k],
            Err(err) => input_position(definition.inputs@, name@) is None && err.kind.issue() == TreeIssue::UnknownInput(name@)
                && err.name@ == definition.name@ && err.path@ == path@,
        },
{
    match input_index(&definition.inputs, name) {
        Some(k) => Ok(&definition.inputs[k]),
        None => Err(tree_error(definition, path, TreeErrorKind::UnknownInput(name.clone()))),
    }
}

fn append_path(path: &String, suffix: &str) -> (r: String)
    ensures
        r@ == path@ + suffix@,
{
    let mut r = path.clone();
    r.append(suffix);
    r
}

fn case_path_text(path: &String, i: usize) -> (r: String)
    ensures
        r@ == case_path(path@, i as int),
{
    let mut r = path.clone();
    r.append(".match.cases[");
    r.append(decimal_text(i).as_str());
    r.append("]");
    r
}

fn validate_leaf(definition: &RawTreeDefinition, leaf: &DecisionTreeLeafValue, path: &String) -> (r: Result<(), TreeError>)
    requires
        tree_types_resolved(*definition),
    ensures
        match r {
            Ok(_) => leaf_issue(definition.output_type, *leaf) is None,
            Err(err) => leaf_issue(definition.output_type, *leaf) == Some(err.kind.issue()) && err.name@ == definition.name@
                && err.path@ == path@,
        },
{
    match (&definition.output_type, leaf) {
        (Some(Outputs::Scalar { .. }), DecisionTreeLeafValue::Number(number)) => validate_tree_number(definition, path.as_str(), number),
        (Some(Outputs::Scalar { .. }), DecisionTreeLeafValue::Record(_)) => Err(
            tree_error(definition, path.as_str(), TreeErrorKind::NumericLeafRequired),
        ),
        (Some(Outputs::Record { fields, .. }), DecisionTreeLeafValue::Record(cells)) => {
            let mut expected: Vec<String> = Vec::new();
            let mut k: usize = 0;
            while k < fields.len()
                invariant
                    k <= fields.len(),
                    strings_view(expected@) == field_names(fields@).take(k as int),
                decreases fields.len() - k,
            {
                let ghost prev = strings_view(expected@);
                expected.push(fields[k].name.clone());
                assert(strings_view(expected@) =~= prev.push(fields@[k as int].name@));
                assert(field_names(fields@).take(k + 1) =~= field_names(fields@).take(k as int).push(fields@[k as int].name@));
                k = k + 1;
            }
            assert(field_names(fields@).take(fields.len() as int) =~= field_names(fields@));
            let mut actual: Vec<String> = Vec::new();
            let mut k: usize = 0;
            while k < cells.len()
                invariant
                    k <= cells.len(),
                    strings_view(actual@) == argument_names(cells@).take(k as int),
                decreases cells.len() - k,
            {
                let ghost prev = strings_view(actual@);
                actual.push(cells[k].0.clone());
                assert(strings_view(actual@) =~= prev.push(cells@[k as int].0@));
                assert(argument_names(cells@).take(k + 1) =~= argument_names(cells@).take(k as int).push(cells@[k as int].0@));
                k = k + 1;
            }
            assert(argument_names(cells@).take(cells.len() as int) =~= argument_names(cells@));
            if !same_names(&actual, &expected) {
                return Err(tree_error(definition, path.as_str(), TreeErrorKind::RecordFields));
            }
            assert(argument_names(cells@).to_set() == field_names(fields@).to_set());
            let mut k: usize = 0;
            while k < cells.len()
                invariant
                    k <= cells.len(),
                    definition.output_type matches Some(Outputs::Record { fields: f, .. }) && f == *fields,
                    *leaf == DecisionTreeLeafValue::Record(*cells),
                    argument_names(cells@).to_set() == field_names(fields@).to_set(),
                    first_nonfinite(cells@, k as int) is None,
                decreases cells.len() - k,
            {
                match validate_tree_number(definition, path.as_str(), &cells[k].1) {
                    Ok(()) => {},
                    Err(e) => {
                        proof {
                            lemma_first_nonfinite_prefix(cells@, k + 1, cells.len() as int);
                        }
                        return Err(e);
                    },
                }
                k = k + 1;
            }
            Ok(())
        },
        (Some(Outputs::Record { .. }), DecisionTreeLeafValue::Number(_)) => Err(
            tree_error(definition, path.as_str(), TreeErrorKind::RecordLeafRequired),
        ),
        (None, _) => Ok(()),
    }
}

fn validate_split(definition: &RawTreeDefinition, split: &DecisionTreeSplit, path: &String) -> (r: Result<(), TreeError>)
    requires
        tree_types_resolved(*definition),
    ensures
        match r {
            Ok(_) => split_issue(definition.inputs@, *split) is None,
            Err(err) => split_issue(definition.inputs@, *split) == Some(err.kind.issue()) && err.name@ == definition.name@
                && err.path@ == path@,
        },
{
    match split {
        DecisionTreeSplit::LessThan { input, value } => {
            let formal = tree_input(definition, input, path.as_str())?;
            match formal {
                TreeInput::Number { .. } => {},
                _ => {
                    return Err(tree_error(definition, path.as_str(), TreeErrorKind::NumericInputRequired(input.clone())));
                },
            }
            validate_tree_number(definition, path.as_str(), value)
        },
        DecisionTreeSplit::EnumIn { input, values } => {
            let formal = tree_input(definition, input, path.as_str())?;
            match formal {
                TreeInput::Enum { definition: Some(e), .. } => validate_tree_members(definition, e, values, path.as_str()),
                _ => Err(tree_error(definition, path.as_str(), TreeErrorKind::EnumInputRequired(input.clone()))),
            }
        },
    }
}

proof fn lemma_cases_issue_prefix(d: RawTreeDefinition, e: EnumDefinition, cases: Seq<RawCase>, path: Seq<char>, m: int)
    requires
        0 <= m <= cases.len(),
        cases_issue(d, e, cases.take(m), path) is Some,
    ensures
        cases_issue(d, e, cases, path) == cases_issue(d, e, cases.take(m), path),
    decreases cases.len() - m,
{
    if m < cases.len() {
        assert(cases.take(m + 1).drop_last() == cases.take(m));
        lemma_cases_issue_prefix(d, e, cases, path, m + 1);
    } else {
        assert(cases.take(m) == cases);
    }
}

proof fn lemma_first_member_issue_prefix(e: EnumDefinition, members: Seq<String>, m: int, n: int)
    requires
        0 <= m <= n,
        first_member_issue(e, members, m) is Some,
    ensures
        first_member_issue(e, members, n) == first_member_issue(e, members, m),
    decreases n - m,
{
    if m < n {
        lemma_first_member_issue_prefix(e, members, m, n - 1);
    }
}

proof fn lemma_first_nonfinite_prefix(cells: Seq<(String, String)>, m: int, n: int)
    requires
        0 <= m <= n,
        first_nonfinite(cells, m) is Some,
    ensures
        first_nonfinite(cells, n) == first_nonfinite(cells, m),
    decreases n - m,
{
    if m < n {
        lemma_first_nonfinite_prefix(cells, m, n - 1);
    }
}

/// The first of `members` that is among `names`, by position.
fn first_among(names: &Vec<String>, members: &Vec<String>) -> (r: Option<usize>)
    ensures
        match r {
            Some(m) => m < members.len() && first_overlap(members@, strings_view(names@).to_set(), members.len() as int) == Some(
                members@[m as int]@,
            ),
            None => first_overlap(members@, strings_view(names@).to_set(), members.len() as int) is None,
        },
{
    let ghost set = strings_view(names@).to_set();
    let mut m: usize = 0;
    while m < members.len()
        invariant
            m <= members.len(),
            set == strings_view(names@).to_set(),
            first_overlap(members@, set, m as int) is None,
        decreases members.len() - m,
    {
        if among(names, names.len(), &members[m]) {
            assert(strings_view(names@).take(names.len() as int) == strings_view(names@));
            assert(set.contains(members@[m as int]@));
            proof {
                lemma_first_overlap_prefix(members@, set, m + 1, members.len() as int);
            }
            return Some(m);
        }
        assert(strings_view(names@).take(names.len() as int) == strings_view(names@));
        m = m + 1;
    }
    None
}

/// Adds the names of `more` after those of `names`.
fn append_names(names: &mut Vec<String>, more: &Vec<String>)
    ensures
        strings_view(final(names)@) == strings_view(old(names)@) + strings_view(more@),
{
    let ghost start = strings_view(names@);
    let mut m: usize = 0;
    while m < more.len()
        invariant
            m <= more.len(),
            strings_view(names@) == start + strings_view(more@).take(m as int),
        decreases more.len() - m,
    {
        let ghost prev = strings_view(names@);
        names.push(more[m].clone());
        assert(strings_view(names@) =~= prev.push(more@[m as int]@));
        assert(strings_view(more@).take(m + 1) =~= strings_view(more@).take(m as int).push(more@[m as int]@));
        assert(strings_view(names@) =~= start + strings_view(more@).take(m + 1));
        m = m + 1;
    }
    assert(strings_view(more@).take(more.len() as int) == strings_view(more@));
}

fn validate_node(definition: &RawTreeDefinition, node: &RawTree, path: &String) -> (r: Result<(), TreeError>)
    requires
        tree_types_resolved(*definition),
    ensures
        match r {
            Ok(_) => node_issue(*definition, *node, path@) is None,
            Err(err) => node_issue(*definition, *node, path@) == Some((err.path@, err.kind.issue())) && err.name@ == definition.name@,
        },
    decreases node,
{
    match node {
        RawTree::Leaf(leaf) => validate_leaf(definition, leaf, path),
        RawTree::Split { split, yes, no } => {
            validate_split(definition, split, path)?;
            validate_node(definition, yes, &append_path(path, ".yes"))?;
            validate_node(definition, no, &append_path(path, ".no"))
        },
        RawTree::Match { input, cases } => {
            let formal = tree_input(definition, input, path.as_str())?;
            let e = match formal {
                TreeInput::Enum { definition: Some(e), .. } => e,
                _ => {
                    return Err(tree_error(definition, path.as_str(), TreeErrorKind::MatchInputNotEnum(input.clone())));
                },
            };
            let mut covered_names: Vec<String> = Vec::new();
            let mut i: usize = 0;
            assert(cases@.take(0) =~= Seq::<RawCase>::empty());
            assert(strings_view(covered_names@).to_set() =~= Set::<Seq<char>>::empty());
            while i < cases.len()
                invariant
                    i <= cases.len(),
                    tree_types_resolved(*definition),
                    *node == (RawTree::Match { input: *input, cases: *cases }),
                    input_position(definition.inputs@, input@) matches Some(p) && definition.inputs@[p] matches TreeInput::Enum {
                        definition: Some(x),
                        ..
                    } && x == *e,
                    cases_issue(*definition, *e, cases@.take(i as int), path@) is None,
                    strings_view(covered_names@).to_set() == covered(cases@.take(i as int)),
                decreases cases.len() - i,
            {
                let case = &cases[i];
                let ghost before = cases@.take(i as int);
                assert(cases@.take(i + 1).drop_last() == before);
                assert(cases@.take(i + 1).last() == *case);
                let here = case_path_text(path, i);
                match validate_tree_members(definition, e, &case.values, here.as_str()) {
                    Ok(()) => {},
                    Err(err) => {
                        proof {
                            lemma_cases_issue_prefix(*definition, *e, cases@, path@, i + 1);
                        }
                        return Err(err);
                    },
                }
                match first_among(&covered_names, &case.values) {
                    Some(m) => {
                        proof {
                            lemma_cases_issue_prefix(*definition, *e, cases@, path@, i + 1);
                        }
                        return Err(tree_error(definition, path.as_str(), TreeErrorKind::OverlappingMember(case.values[m].clone())));
                    },
                    None => {},
                }
                proof {
                    assert(decreases_to!(*node => node->cases));
                    assert(decreases_to!(node->cases => node->cases@));
                    assert(decreases_to!(cases@ => cases@[i as int]));
                    assert(decreases_to!(cases@[i as int] => cases@[i as int].subtree));
                }
                let below = append_path(&here, ".then");
                match validate_node(definition, &case.subtree, &below) {
                    Ok(()) => {},
                    Err(err) => {
                        proof {
                            lemma_cases_issue_prefix(*definition, *e, cases@, path@, i + 1);
                        }
                        return Err(err);
                    },
                }
                let ghost start = strings_view(covered_names@);
                append_names(&mut covered_names, &case.values);
                assert(strings_view(covered_names@).to_set() =~= covered(before).union(strings_view(case.values@).to_set())) by {
                    assert forall|x: Seq<char>| strings_view(covered_names@).contains(x) <==> start.contains(x) || strings_view(
                        case.values@,
                    ).contains(x) by {
                        let all = strings_view(covered_names@);
                        if all.contains(x) {
                            let j = choose|j: int| 0 <= j < all.len() && all[j] == x;
                            if j < start.len() {
                                assert(start[j] == x);
                            } else {
                                assert(strings_view(case.values@)[j - start.len()] == x);
                            }
                        }
                        if start.contains(x) {
                            let j = choose|j: int| 0 <= j < start.len() && start[j] == x;
                            assert(all[j] == x);
                        }
                        if strings_view(case.values@).contains(x) {
                            let j = choose|j: int| 0 <= j < case.values.len() && strings_view(case.values@)[j] == x;
                            assert(all[start.len() + j] == x);
                        }
                    }
                }
                i = i + 1;
            }
            assert(cases@.take(cases.len() as int) == cases@);
            let names = enum_member_names(e);
            if !same_names(&covered_names, &names) {
                return Err(tree_error(definition, path.as_str(), TreeErrorKind::IncompleteMatch(e.enum_type.name.clone())));
            }
            Ok(())
        },
    }
}

proof fn lemma_first_overlap_prefix(members: Seq<String>, before: Set<Seq<char>>, m: int, n: int)
    requires
        0 <= m <= n,
        first_overlap(members, before, m) is Some,
    ensures
        first_overlap(members, before, n) == first_overlap(members, before, m),
    decreases n - m,
{
    if m < n {
        lemma_first_overlap_prefix(members, before, m, n - 1);
    }
}

/// Checks a resolved tree definition from its root, whose path is `root`.
pub fn validate_tree_definition(definition: &RawTreeDefinition) -> (r: Result<(), TreeError>)
    requires
        tree_types_resolved(*definition),
    ensures
        match r {
            Ok(_) => node_issue(*definition, definition.root, "root"@) is None,
            Err(err) => node_issue(*definition, definition.root, "root"@) == Some((err.path@, err.kind.issue()))
                && err.name@ == definition.name@,
        },
{
    let root = String::from_str("root");
    validate_node(definition, &definition.root, &root)
}

proof fn lemma_checked_node_resolved(d: RawTreeDefinition, node: RawTree, path: Seq<char>)
    requires
        tree_types_resolved(d),
        node_issue(d, node, path) is None,
    ensures
        node_resolved(d.inputs@, d.output_type, node),
    decreases node, 0int,
{
    match node {
        RawTree::Leaf(DecisionTreeLeafValue::Record(cells)) => {
            if let Some(Outputs::Record { fields, .. }) = d.output_type {
                assert(output_fields(d.output_type) == fields@);
                assert forall|f: int| 0 <= f < output_fields(d.output_type).len() implies cell_for(
                    cells@,
                    (#[trigger] output_fields(d.output_type)[f]).name@,
                ) is Some by {
                    assert(field_names(fields@)[f] == fields@[f].name@);
                    assert(field_names(fields@).to_set().contains(fields@[f].name@));
                    assert(argument_names(cells@).to_set().contains(fields@[f].name@));
                    lemma_cell_for_some(cells@, fields@[f].name@);
                }
            }
        },
        RawTree::Leaf(_) => {},
        RawTree::Split { split, yes, no } => {
            lemma_checked_node_resolved(d, *yes, path + ".yes"@);
            lemma_checked_node_resolved(d, *no, path + ".no"@);
        },
        RawTree::Match { input, cases } => {
            if let Some(k) = input_position(d.inputs@, input@) {
                if let TreeInput::Enum { definition: Some(e), .. } = d.inputs@[k] {
                    lemma_checked_cases_resolved(d, e, cases@, path);
                }
            }
        },
    }
}

proof fn lemma_checked_cases_resolved(d: RawTreeDefinition, e: EnumDefinition, cases: Seq<RawCase>, path: Seq<char>)
    requires
        tree_types_resolved(d),
        cases_issue(d, e, cases, path) is None,
    ensures
        cases_resolved(d.inputs@, d.output_type, cases),
    decreases cases, cases.len(),
{
    if cases.len() > 0 {
        lemma_checked_cases_resolved(d, e, cases.drop_last(), path);
        let i = cases.len() - 1;
        lemma_checked_node_resolved(d, *cases.last().subtree, case_path(path, i) + ".then"@);
    }
}

/// Law: a tree definition whose types are resolved and that passes the checks is
/// resolved throughout, so it can be compiled.
pub proof fn law_checked_tree_compiles(d: RawTreeDefinition)
    requires
        tree_types_resolved(d),
        node_issue(d, d.root, "root"@) is None,
    ensures
        tree_resolved(d),
{
    lemma_checked_node_resolved(d, d.root, "root"@);
}

} // verus!
