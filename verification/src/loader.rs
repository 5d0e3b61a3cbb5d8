//! Loading the specification corpus: the schema checks of the documents, the project's
//! rules on files and statuses, the formulas located and parsed and the
//! implementations compiled, with the diagnostics of every file gathered.

use vstd::prelude::*;
use vstd::string::*;
use crate::json_text::{json_text, json_text_of};
use crate::references::{JsonValue, reserved_module, is_reserved_module};
use crate::semantic::strings_view;
use crate::specs::{schema_location, schema_location_text, source_slug, slug_message, SlugError};
use crate::validate::{find_key, is_identifier};
use crate::model::{
    Definition, DefinitionError, Documentation, EnumType, Entry, FunctionScope, InputReference,
    OutputReference, PublicApi, RawExpression, RawFunction, RawInput, RawInputType, RawLookup, RawTreeInvocation,
    RawVariable, RawVariableValue, Scope, Source, SourceLocation, Spec, ToleranceOverride, TreeDefinition,
    VerificationCase, DecisionTree, DecisionTreeMatchCase, definition_name, resolved_enum_definition,
};
use crate::definitions::{
    resolve_lookup_definition, resolve_signature, resolve_tree_definition, first_input_reference_issue,
    output_reference_issue, lemma_checked_lookup_complete, law_resolved_tree_compiles,
};
use crate::references::{inputs_with_origins, lookup_with_origin, tree_with_origins, lemma_placed_tree_resolved};
use crate::semantic::{self, definitions_resolved, lookup_resolved};
use crate::decision::tree_resolved;
use crate::specs::{find_expression, location, validate_output};
use crate::strings::{decimal, decimal_text};
use crate::specs::{find_expr, lemma_find_expr_after, newline_count, column_count, plus_one};
use vstd::utf8::{encode_utf8, is_char_boundary};
use jsonschema::{options, Draft, Registry};
use serde_json::{from_str, Value};

verus! {

/// The base URI of the specification schema.
pub open spec fn specification_uri() -> Seq<char> {
    "https://ptfkit.invalid/ptf-spec.schema.json"@
}

/// The base URI of the shared-definitions schema.
pub open spec fn definitions_uri() -> Seq<char> {
    "https://ptfkit.invalid/definitions.schema.json"@
}

/// The two schemas, as JSON texts: specification documents are checked against the
/// first, shared-definitions documents against the second, which may refer to the first.
pub struct Schemas {
    pub specification: String,
    pub definitions: String,
}

/// Pairs of texts by their views.
pub open spec fn pairs_view(v: Seq<(String, String)>) -> Seq<(Seq<char>, Seq<char>)> {
    v.map_values(|p: (String, String)| (p.0@, p.1@))
}

/// What jsonschema reports of `document` checked against `schema` under draft 2020-12,
/// with `base` as the schema's base URI and `resource` registered under `resource_uri`:
/// each violation as its JSON pointer into the document and its message. Every text is
/// a JSON text.
pub uninterp spec fn schema_diagnostics(
    schema: Seq<char>,
    base: Seq<char>,
    resource_uri: Seq<char>,
    resource: Seq<char>,
    document: Seq<char>,
) -> Seq<(Seq<char>, Seq<char>)>;

/// jsonschema's validation (`jsonschema::options()` under draft 2020-12 with the base
/// URI and a registry holding `resource`, then `Validator::iter_errors`): the result is
/// named by `schema_diagnostics` over all five texts, each violation as the instance
/// path and the error's display. A text that is not JSON, or a schema that does not
/// build, yields one entry with an empty path and the parser's, registry's or builder's
/// message.
#[verifier::external_body]
fn schema_issues(schema: &str, base: &str, resource_uri: &str, resource: &str, document: &str) -> (r: Vec<(String, String)>)
    ensures
        pairs_view(r@) == schema_diagnostics(schema@, base@, resource_uri@, resource@, document@),
{
    let run = || -> Result<Vec<(String, String)>, Box<dyn std::error::Error>> {
        let registry = Registry::new().add(resource_uri, from_str::<Value>(resource)?)?.prepare()?;
        let schema: Value = from_str(schema)?;
        let validator = options().with_draft(Draft::Draft202012).with_base_uri(base).with_registry(&registry).build(&schema)?;
        let document: Value = from_str(document)?;
        Ok(validator.iter_errors(&document).map(|e| (e.instance_path().to_string(), e.to_string())).collect())
    };
    run().unwrap_or_else(|e| vec![(String::new(), e.to_string())])
}

/// One schema violation of the document at `path`: the path, the violation's
/// location and its message.
pub open spec fn schema_message(path: Seq<char>, issue: (Seq<char>, Seq<char>)) -> Seq<char> {
    path + ":\n  "@ + schema_location_text(issue.0) + ":\n    "@ + issue.1
}

/// The schema violations of a document, each as a message.
pub open spec fn schema_messages(path: Seq<char>, issues: Seq<(Seq<char>, Seq<char>)>) -> Seq<Seq<char>> {
    issues.map_values(|i: (Seq<char>, Seq<char>)| schema_message(path, i))
}

fn messages_of(path: &str, issues: Vec<(String, String)>) -> (r: Vec<String>)
    ensures
        strings_view(r@) == schema_messages(path@, pairs_view(issues@)),
{
    let mut r: Vec<String> = Vec::new();
    let mut k: usize = 0;
    while k < issues.len()
        invariant
            k <= issues.len(),
            strings_view(r@) == schema_messages(path@, pairs_view(issues@)).take(k as int),
        decreases issues.len() - k,
    {
        let mut m = String::from_str(path);
        m.append(":\n  ");
        let location = schema_location(issues[k].0.as_str());
        m.append(location.as_str());
        m.append(":\n    ");
        m.append(issues[k].1.as_str());
        proof {
            reveal_strlit(":\n  ");
            reveal_strlit(":\n    ");
        }
        let ghost prev = strings_view(r@);
        r.push(m);
        assert(strings_view(r@) =~= prev.push(schema_message(path@, pairs_view(issues@)[k as int])));
        assert(schema_messages(path@, pairs_view(issues@)).take(k + 1) =~= schema_messages(path@, pairs_view(issues@)).take(
            k as int,
        ).push(schema_message(path@, pairs_view(issues@)[k as int])));
        k = k + 1;
    }
    assert(schema_messages(path@, pairs_view(issues@)).take(issues.len() as int) =~= schema_messages(path@, pairs_view(issues@)));
    r
}

/// The schema violations of a specification document, as messages.
pub open spec fn specification_violations(path: Seq<char>, schemas: Schemas, document: crate::references::JsonView) -> Seq<Seq<char>> {
    schema_messages(
        path,
        schema_diagnostics(schemas.specification@, specification_uri(), specification_uri(), schemas.specification@, json_text(document)),
    )
}

/// The schema violations of a shared-definitions document, as messages.
pub open spec fn definitions_violations(path: Seq<char>, schemas: Schemas, document: crate::references::JsonView) -> Seq<Seq<char>> {
    schema_messages(
        path,
        schema_diagnostics(schemas.definitions@, definitions_uri(), specification_uri(), schemas.specification@, json_text(document)),
    )
}

/// Checks a specification document against the specification schema.
pub fn specification_errors(path: &str, schemas: &Schemas, document: &JsonValue) -> (r: Vec<String>)
    ensures
        strings_view(r@) == specification_violations(path@, *schemas, document@),
{
    let text = json_text_of(document);
    let uri = "https://ptfkit.invalid/ptf-spec.schema.json";
    proof {
        reveal_strlit("https://ptfkit.invalid/ptf-spec.schema.json");
    }
    let issues = schema_issues(schemas.specification.as_str(), uri, uri, schemas.specification.as_str(), text.as_str());
    messages_of(path, issues)
}

/// Why a shared-definitions document is refused.
pub enum SharedDocumentError {
    /// Its file name is not a slug.
    Slug(SlugError),
    /// Its module name is reserved for generated code.
    ReservedModule { module: String },
    /// It violates the shared-definitions schema; each violation as a message.
    Schema(Vec<String>),
}

/// The issue of a shared-definitions document, by the views of its parts.
pub enum SharedDocumentIssue {
    Slug(SlugError),
    ReservedModule(Seq<char>),
    Schema(Seq<Seq<char>>),
}

impl SharedDocumentError {
    pub open spec fn issue(&self) -> SharedDocumentIssue {
        match self {
            SharedDocumentError::Slug(e) => SharedDocumentIssue::Slug(*e),
            SharedDocumentError::ReservedModule { module } => SharedDocumentIssue::ReservedModule(module@),
            SharedDocumentError::Schema(messages) => SharedDocumentIssue::Schema(strings_view(messages@)),
        }
    }
}

/// What is wrong with a shared-definitions document at `path` whose file stem is
/// `stem`: a stem that is not a slug, then a reserved module name, then schema violations.
pub open spec fn shared_document_issue(
    path: Seq<char>,
    stem: Option<Seq<char>>,
    schemas: Schemas,
    document: crate::references::JsonView,
) -> Option<SharedDocumentIssue> {
    match stem {
        None => Some(SharedDocumentIssue::Slug(SlugError::NonUtf8Slug)),
        Some(s) => if !is_identifier(s) {
            Some(SharedDocumentIssue::Slug(SlugError::InvalidSlug))
        } else if is_reserved_module(s) {
            Some(SharedDocumentIssue::ReservedModule(s))
        } else if definitions_violations(path, schemas, document).len() > 0 {
            Some(SharedDocumentIssue::Schema(definitions_violations(path, schemas, document)))
        } else {
            None
        },
    }
}

/// Checks a shared-definitions document: its file name, its module name and its schema.
pub fn check_shared_document(path: &str, stem: Option<&str>, schemas: &Schemas, document: &JsonValue) -> (r: Result<
    (),
    SharedDocumentError,
>)
    ensures
        match shared_document_issue(path@, match stem {
            Some(s) => Some(s@),
            None => None,
        }, *schemas, document@) {
            None => r is Ok,
            Some(i) => r matches Err(e) && e.issue() == i,
        },
{
    let module = match source_slug(stem) {
        Ok(m) => m,
        Err(e) => {
            return Err(SharedDocumentError::Slug(e));
        },
    };
    if reserved_module(module.as_str()) {
        return Err(SharedDocumentError::ReservedModule { module });
    }
    let text = json_text_of(document);
    let base = "https://ptfkit.invalid/definitions.schema.json";
    let uri = "https://ptfkit.invalid/ptf-spec.schema.json";
    proof {
        reveal_strlit("https://ptfkit.invalid/definitions.schema.json");
        reveal_strlit("https://ptfkit.invalid/ptf-spec.schema.json");
    }
    let issues = schema_issues(schemas.definitions.as_str(), base, uri, schemas.specification.as_str(), text.as_str());
    let messages = messages_of(path, issues);
    if messages.len() > 0 {
        return Err(SharedDocumentError::Schema(messages));
    }
    Ok(())
}

impl SharedDocumentError {
    /// The message of the error for the document at `path`.
    pub fn message(&self, path: &str) -> (r: String)
        ensures
            r@ == match self.issue() {
                SharedDocumentIssue::Slug(e) => slug_message(e, path@),
                SharedDocumentIssue::ReservedModule(m) => "shared definition module `"@ + m + "` in "@ + path@
                    + " uses a reserved target module name"@,
                SharedDocumentIssue::Schema(ms) => "invalid shared definitions:"@ + crate::loader::lines_after(ms),
            },
    {
        match self {
            SharedDocumentError::Slug(e) => e.message(path),
            SharedDocumentError::ReservedModule { module } => {
                let mut r = String::from_str("shared definition module `");
                r.append(module.as_str());
                r.append("` in ");
                r.append(path);
                r.append(" uses a reserved target module name");
                proof {
                    reveal_strlit("shared definition module `");
                    reveal_strlit("` in ");
                    reveal_strlit(" uses a reserved target module name");
                }
                r
            },
            SharedDocumentError::Schema(messages) => {
                let mut r = String::from_str("invalid shared definitions:");
                proof {
                    reveal_strlit("invalid shared definitions:");
                }
                append_lines(&mut r, messages);
                r
            },
        }
    }
}

/// Each text on a line of its own: a newline before each.
pub open spec fn lines_after(texts: Seq<Seq<char>>) -> Seq<char>
    decreases texts.len(),
{
    if texts.len() == 0 {
        seq![]
    } else {
        lines_after(texts.drop_last()) + seq!['\n'] + texts.last()
    }
}

/// Appends each text on a line of its own.
pub fn append_lines(out: &mut String, texts: &Vec<String>)
    ensures
        final(out)@ == old(out)@ + lines_after(strings_view(texts@)),
{
    let ghost start = out@;
    let mut k: usize = 0;
    while k < texts.len()
        invariant
            k <= texts.len(),
            out@ == start + lines_after(strings_view(texts@).take(k as int)),
        decreases texts.len() - k,
    {
        assert(strings_view(texts@).take(k + 1).drop_last() =~= strings_view(texts@).take(k as int));
        crate::strings::push_char(out, '\n');
        out.append(texts[k].as_str());
        k = k + 1;
        assert(out@ =~= start + lines_after(strings_view(texts@).take(k as int)));
    }
    assert(strings_view(texts@).take(texts.len() as int) =~= strings_view(texts@));
}

/// A variable of an implementation as the specification declares it.
pub enum VariableDeclaration {
    /// A formula.
    Expression { name: String, expr: String },
    /// The row of a lookup table, named by a reference, selected by `key`.
    Lookup { name: String, table: String, key: String },
    /// A decision tree, named by a reference, applied to arguments.
    Tree { name: String, definition: String, arguments: Vec<(String, String)> },
}

impl VariableDeclaration {
    pub open spec fn spec_name(&self) -> Seq<char> {
        match self {
            VariableDeclaration::Expression { name, .. } => name@,
            VariableDeclaration::Lookup { name, .. } => name@,
            VariableDeclaration::Tree { name, .. } => name@,
        }
    }
}

/// A function as the specification declares it, before its references are resolved.
pub struct FunctionDeclaration {
    pub name: String,
    pub status: String,
    pub public_api: PublicApi,
    pub scope: FunctionScope,
    pub inputs: Vec<InputReference>,
    pub outputs: OutputReference,
    pub verification_tolerances: Vec<(String, ToleranceOverride)>,
    pub implementation: Option<Vec<VariableDeclaration>>,
    pub verification_cases: Vec<VerificationCase>,
    pub edge_cases: Vec<serde_json::Value>,
    pub documentation: Documentation,
}

/// A specification document as it is written, its shared definitions already copied in.
pub struct SpecDocument {
    pub source: Source,
    pub scope: Scope,
    pub scientific_notes: String,
    pub definitions: Vec<(String, Definition)>,
    pub functions: Vec<FunctionDeclaration>,
}

/// Statuses that promise an implementation.
pub open spec fn requires_implementation(status: Seq<char>) -> bool {
    status == "implemented"@ || status == "ready-for-implementation"@
}

/// A function whose status promises an implementation that it does not declare.
pub open spec fn lacks_implementation(f: FunctionDeclaration) -> bool {
    requires_implementation(f.status@) && f.implementation is None
}

/// The message for a function that lacks the implementation its status promises.
pub open spec fn missing_implementation_message(path: Seq<char>, f: FunctionDeclaration) -> Seq<char> {
    path + " -> function "@ + f.name@ + " -> implementation: required for status `"@ + f.status@ + "`"@
}

/// The messages of the functions that lack the implementation their status promises,
/// in order.
pub open spec fn missing_implementation_messages(path: Seq<char>, fs: Seq<FunctionDeclaration>) -> Seq<Seq<char>>
    decreases fs.len(),
{
    if fs.len() == 0 {
        seq![]
    } else {
        missing_implementation_messages(path, fs.drop_last()) + if lacks_implementation(fs.last()) {
            seq![missing_implementation_message(path, fs.last())]
        } else {
            seq![]
        }
    }
}

/// The project's rule on statuses: every function whose status is `implemented` or
/// `ready-for-implementation` declares an implementation. Each function that breaks it
/// is reported, in order.
pub fn missing_implementations(path: &str, functions: &Vec<FunctionDeclaration>) -> (r: Vec<String>)
    ensures
        strings_view(r@) == missing_implementation_messages(path@, functions@),
{
    let mut r: Vec<String> = Vec::new();
    let mut k: usize = 0;
    while k < functions.len()
        invariant
            k <= functions.len(),
            strings_view(r@) == missing_implementation_messages(path@, functions@.take(k as int)),
        decreases functions.len() - k,
    {
        assert(functions@.take(k + 1).drop_last() =~= functions@.take(k as int));
        let f = &functions[k];
        let required = crate::strings::str_equal(f.status.as_str(), "implemented") || crate::strings::str_equal(
            f.status.as_str(),
            "ready-for-implementation",
        );
        proof {
            reveal_strlit("implemented");
            reveal_strlit("ready-for-implementation");
        }
        if required && f.implementation.is_none() {
            let mut m = String::from_str(path);
            m.append(" -> function ");
            m.append(f.name.as_str());
            m.append(" -> implementation: required for status `");
            m.append(f.status.as_str());
            m.append("`");
            proof {
                reveal_strlit(" -> function ");
                reveal_strlit(" -> implementation: required for status `");
                reveal_strlit("`");
            }
            let ghost prev = strings_view(r@);
            r.push(m);
            assert(strings_view(r@) =~= prev.push(missing_implementation_message(path@, functions@[k as int])));
        }
        assert(strings_view(r@) =~= missing_implementation_messages(path@, functions@.take(k + 1)));
        k = k + 1;
    }
    assert(functions@.take(functions.len() as int) =~= functions@);
    r
}

/// The formulas of an implementation's variables, in order.
pub open spec fn variable_formulas(vs: Seq<VariableDeclaration>) -> Seq<Seq<char>>
    decreases vs.len(),
{
    if vs.len() == 0 {
        seq![]
    } else {
        variable_formulas(vs.drop_last()) + match vs.last() {
            VariableDeclaration::Expression { expr, .. } => seq![expr@],
            _ => seq![],
        }
    }
}

/// The formulas of the functions' implementations, function by function, in order.
pub open spec fn formulas_of(fs: Seq<FunctionDeclaration>) -> Seq<Seq<char>>
    decreases fs.len(),
{
    if fs.len() == 0 {
        seq![]
    } else {
        formulas_of(fs.drop_last()) + match fs.last().implementation {
            Some(vs) => variable_formulas(vs@),
            None => seq![],
        }
    }
}

fn push_variable_formulas(out: &mut Vec<String>, vs: &Vec<VariableDeclaration>)
    ensures
        strings_view(final(out)@) == strings_view(old(out)@) + variable_formulas(vs@),
{
    let ghost start = strings_view(out@);
    let mut k: usize = 0;
    while k < vs.len()
        invariant
            k <= vs.len(),
            strings_view(out@) == start + variable_formulas(vs@.take(k as int)),
        decreases vs.len() - k,
    {
        assert(vs@.take(k + 1).drop_last() =~= vs@.take(k as int));
        match &vs[k] {
            VariableDeclaration::Expression { expr, .. } => {
                let ghost prev = strings_view(out@);
                out.push(expr.clone());
                assert(strings_view(out@) =~= prev.push(expr@));
            },
            _ => {},
        }
        assert(strings_view(out@) =~= start + variable_formulas(vs@.take(k + 1)));
        k = k + 1;
    }
    assert(vs@.take(vs.len() as int) =~= vs@);
}

fn formulas(functions: &Vec<FunctionDeclaration>) -> (r: Vec<String>)
    ensures
        strings_view(r@) == formulas_of(functions@),
{
    let mut r: Vec<String> = Vec::new();
    let mut k: usize = 0;
    while k < functions.len()
        invariant
            k <= functions.len(),
            strings_view(r@) == formulas_of(functions@.take(k as int)),
        decreases functions.len() - k,
    {
        assert(functions@.take(k + 1).drop_last() =~= functions@.take(k as int));
        match &functions[k].implementation {
            Some(vs) => push_variable_formulas(&mut r, vs),
            None => {},
        }
        assert(strings_view(r@) =~= formulas_of(functions@.take(k + 1)));
        k = k + 1;
    }
    assert(functions@.take(functions.len() as int) =~= functions@);
    r
}

/// Where each formula starts, looking for each after the previous one: the first `expr:`
/// value from the cursor on that holds it (see `find_expr`), which must start a
/// character; or the first formula not found so.
pub open spec fn locate(s: Seq<u8>, cursor: int, es: Seq<Seq<char>>) -> Result<Seq<int>, Seq<char>>
    decreases es.len(),
{
    if es.len() == 0 {
        Ok(seq![])
    } else {
        match find_expr(s, cursor, encode_utf8(es[0])) {
            None => Err(es[0]),
            Some((v, w)) => if !is_char_boundary(s, v) {
                Err(es[0])
            } else {
                match locate(s, w, es.drop_first()) {
                    Ok(rest) => Ok(seq![v] + rest),
                    Err(e) => Err(e),
                }
            },
        }
    }
}

/// The line and column of a byte offset: lines and columns count from one, columns in
/// characters.
pub open spec fn location_at(s: Seq<u8>, offset: int) -> (usize, usize) {
    (plus_one(newline_count(s.take(offset))), plus_one(column_count(s.take(offset))))
}

/// The message for a formula that the document's text does not hold.
pub open spec fn formula_not_found_message(path: Seq<char>, expression: Seq<char>) -> Seq<char> {
    path + ":\n  $:\n    expression `"@ + expression + "` was not found in the document"@
}

/// Where each formula of the functions' implementations starts in the document's text.
pub fn expression_locations(path: &str, text: &str, functions: &Vec<FunctionDeclaration>) -> (r: Result<Vec<SourceLocation>, String>)
    ensures
        match locate(text.spec_bytes(), 0, formulas_of(functions@)) {
            Ok(offsets) => r matches Ok(v) && v.len() == offsets.len() && forall|i: int| 0 <= i < v.len()
                ==> ((#[trigger] v@[i]).line, v@[i].column) == location_at(text.spec_bytes(), offsets[i]),
            Err(e) => r matches Err(m) && m@ == formula_not_found_message(path@, e),
        },
{
    let es = formulas(functions);
    let ghost all = strings_view(es@);
    let mut cursor: usize = 0;
    let mut k: usize = 0;
    let mut found: Vec<SourceLocation> = Vec::new();
    let ghost mut offsets: Seq<int> = seq![];
    assert(all.skip(0) =~= all);
    assert(forall|rest: Seq<int>| #[trigger] (offsets + rest) =~= rest);
    while k < es.len()
        invariant
            k <= es.len(),
            all == strings_view(es@),
            all == formulas_of(functions@),
            cursor <= text.spec_bytes().len(),
            found.len() == k,
            offsets.len() == k,
            forall|i: int| 0 <= i < k ==> ((#[trigger] found@[i]).line, found@[i].column) == location_at(text.spec_bytes(), offsets[i]),
            locate(text.spec_bytes(), 0, all) == match locate(text.spec_bytes(), cursor as int, all.skip(k as int)) {
                Ok(rest) => Ok::<Seq<int>, Seq<char>>(offsets + rest),
                Err(e) => Err(e),
            },
        decreases es.len() - k,
    {
        let e = es[k].as_str();
        assert(all.skip(k as int)[0] == e@);
        assert(all.skip(k as int).drop_first() =~= all.skip(k + 1));
        match find_expression(text, cursor, e) {
            Some((v, w)) => {
                if !text.is_char_boundary(v) {
                    return Err(not_found(path, e));
                }
                proof {
                    lemma_find_expr_after(text.spec_bytes(), cursor as int, e.spec_bytes());
                }
                let at = location(text, v);
                proof {
                    let old_offsets = offsets;
                    offsets = offsets.push(v as int);
                    assert(forall|rest: Seq<int>| #[trigger] (offsets + rest) =~= old_offsets + (seq![v as int] + rest));
                    assert(e.spec_bytes() == encode_utf8(e@));
                    assert(locate(text.spec_bytes(), cursor as int, all.skip(k as int)) == match locate(text.spec_bytes(), w as int, all.skip(k + 1)) {
                        Ok(rest) => Ok::<Seq<int>, Seq<char>>(seq![v as int] + rest),
                        Err(x) => Err(x),
                    });
                }
                found.push(at);
                cursor = w;
            },
            None => {
                return Err(not_found(path, e));
            },
        }
        k = k + 1;
    }
    assert(all.skip(k as int) =~= Seq::<Seq<char>>::empty());
    assert(offsets + seq![] =~= offsets);
    Ok(found)
}

fn not_found(path: &str, expression: &str) -> (r: String)
    ensures
        r@ == formula_not_found_message(path@, expression@),
{
    let mut m = String::from_str(path);
    m.append(":\n  $:\n    expression `");
    m.append(expression);
    m.append("` was not found in the document");
    proof {
        reveal_strlit(":\n  $:\n    expression `");
        reveal_strlit("` was not found in the document");
    }
    m
}

/// A copy of a decision tree node.
fn copy_node(node: &DecisionTree) -> (r: DecisionTree)
    decreases node,
{
    match node {
        DecisionTree::Leaf(value) => DecisionTree::Leaf(value.clone()),
        DecisionTree::Split { split, yes, no } => {
            proof {
                assert(decreases_to!(*node => node->yes));
                assert(decreases_to!(*node => node->no));
            }
            DecisionTree::Split { split: split.clone(), yes: Box::new(copy_node(yes)), no: Box::new(copy_node(no)) }
        },
        DecisionTree::Match { input, cases } => {
            let mut copied: Vec<DecisionTreeMatchCase> = Vec::new();
            let mut k: usize = 0;
            while k < cases.len()
                invariant
                    k <= cases.len(),
                    *node == (DecisionTree::Match { input: *input, cases: *cases }),
                decreases cases.len() - k,
            {
                proof {
                    assert(decreases_to!(*node => node->cases));
                    assert(decreases_to!(*cases => cases@));
                    assert(decreases_to!(cases@ => cases@[k as int]));
                    assert(decreases_to!(cases@[k as int] => cases@[k as int].subtree));
                }
                let subtree = copy_node(&cases[k].subtree);
                copied.push(DecisionTreeMatchCase { values: cases[k].values.clone(), subtree: Box::new(subtree) });
                k = k + 1;
            }
            DecisionTree::Match { input: input.clone(), cases: copied }
        },
    }
}

/// A copy of a tree definition.
fn copy_tree(tree: &TreeDefinition) -> (r: TreeDefinition)
    ensures
        r.name@ == tree.name@,
{
    TreeDefinition {
        name: tree.name.clone(),
        inputs: tree.inputs.clone(),
        output: tree.output.clone(),
        root: copy_node(&tree.root),
        output_type: tree.output_type.clone(),
    }
}

/// A variable whose lookup or tree is resolved throughout, as compiling requires.
pub open spec fn variable_resolved(v: RawVariable) -> bool {
    match v.value {
        RawVariableValue::Lookup(l) => lookup_resolved(&*l),
        RawVariableValue::Tree(t) => tree_resolved(t.definition),
        _ => true,
    }
}

/// `path`, a colon and a definition error's message.
fn definition_error_message(path: &str, error: &DefinitionError) -> (r: String)
    ensures
        r@ == path@ + ": "@ + crate::definitions::definition_message(error.issue()),
{
    let mut m = String::from_str(path);
    m.append(": ");
    let message = error.message();
    m.append(message.as_str());
    proof {
        reveal_strlit(": ");
    }
    m
}

/// `path -> function name -> implementation_path`.
fn function_location(path: &str, function: &str, implementation_path: &str) -> (r: String)
    ensures
        r@ == path@ + " -> function "@ + function@ + " -> "@ + implementation_path@,
{
    let mut m = String::from_str(path);
    m.append(" -> function ");
    m.append(function);
    m.append(" -> ");
    m.append(implementation_path);
    proof {
        reveal_strlit(" -> function ");
        reveal_strlit(" -> ");
    }
    m
}

/// `implementation.variables[index].` followed by `field`.
fn implementation_path(index: usize, field: &str) -> (r: String)
    ensures
        r@ == "implementation.variables["@ + decimal(index as nat) + "]."@ + field@,
{
    let mut m = String::from_str("implementation.variables[");
    let digits = decimal_text(index);
    m.append(digits.as_str());
    m.append("].");
    m.append(field);
    proof {
        reveal_strlit("implementation.variables[");
        reveal_strlit("].");
    }
    m
}

/// One variable of an implementation: its formula parsed at its location, or its lookup
/// or tree resolved against the file's definitions, with the origins of the shared
/// enumerations set. `next` is the position of the variable's formula among the
/// document's formulas.
fn raw_variable(
    path: &str,
    function: &str,
    definitions: &Vec<(String, Definition)>,
    shared: &Vec<(String, EnumType)>,
    index: usize,
    declaration: &VariableDeclaration,
    locations: &Vec<SourceLocation>,
    next: &mut usize,
) -> (r: Result<RawVariable, String>)
    ensures
        r matches Ok(v) ==> v.name@ == declaration.spec_name() && variable_resolved(v),
{
    match declaration {
        VariableDeclaration::Expression { name, expr } => {
            let implementation_path = implementation_path(index, "expr");
            if *next >= locations.len() {
                let mut m = function_location(path, function, implementation_path.as_str());
                m.append(": source location is unavailable");
                return Err(m);
            }
            let source_location = locations[*next];
            *next = *next + 1;
            let at = function_location(path, function, implementation_path.as_str());
            match crate::formula::parse(at.as_str(), expr.as_str()) {
                Ok(expression) => Ok(RawVariable {
                    name: name.clone(),
                    value: RawVariableValue::Expression(RawExpression { implementation_path, source_location, expression }),
                }),
                Err(e) => Err(e.message()),
            }
        },
        VariableDeclaration::Lookup { name, table, key } => {
            let table_name = match definition_name(table.as_str()) {
                Ok(n) => n,
                Err(e) => {
                    return Err(definition_error_message(path, &e));
                },
            };
            let declared = match find_key(definitions, table_name.as_str()) {
                Some(k) => match &definitions[k].1 {
                    Definition::Lookup(l) => l.clone(),
                    _ => {
                        return Err(definition_error_message(
                            path,
                            &DefinitionError::UnknownLookup { function: function.to_owned(), name: table_name },
                        ));
                    },
                },
                None => {
                    return Err(definition_error_message(
                        path,
                        &DefinitionError::UnknownLookup { function: function.to_owned(), name: table_name },
                    ));
                },
            };
            match resolve_lookup_definition(table_name.as_str(), declared, definitions) {
                Ok(l) => {
                    proof {
                        lemma_checked_lookup_complete(l);
                    }
                    let placed = lookup_with_origin(l, path, shared);
                    let raw = RawLookup {
                        implementation_path: implementation_path(index, "lookup"),
                        key: key.clone(),
                        definition: placed,
                    };
                    assert(lookup_resolved(&raw));
                    Ok(RawVariable { name: name.clone(), value: RawVariableValue::Lookup(Box::new(raw)) })
                },
                Err(e) => Err(definition_error_message(path, &e)),
            }
        },
        VariableDeclaration::Tree { name, definition, arguments } => {
            let tree_name = match definition_name(definition.as_str()) {
                Ok(n) => n,
                Err(e) => {
                    return Err(definition_error_message(path, &e));
                },
            };
            let declared = match find_key(definitions, tree_name.as_str()) {
                Some(k) => match &definitions[k].1 {
                    Definition::Tree(t) => copy_tree(t),
                    _ => {
                        return Err(definition_error_message(
                            path,
                            &DefinitionError::UnknownTree { function: function.to_owned(), name: tree_name },
                        ));
                    },
                },
                None => {
                    return Err(definition_error_message(
                        path,
                        &DefinitionError::UnknownTree { function: function.to_owned(), name: tree_name },
                    ));
                },
            };
            let ghost before = declared;
            match resolve_tree_definition(tree_name.as_str(), declared, definitions) {
                Ok(t) => {
                    proof {
                        law_resolved_tree_compiles(t, tree_name@, before, definitions@);
                    }
                    let ghost resolved = t;
                    let placed = tree_with_origins(t, path, shared);
                    proof {
                        lemma_placed_tree_resolved(resolved, placed, path@, shared@);
                    }
                    let call = RawTreeInvocation {
                        implementation_path: implementation_path(index, "tree"),
                        arguments: arguments.clone(),
                        definition: placed,
                    };
                    Ok(RawVariable { name: name.clone(), value: RawVariableValue::Tree(Box::new(call)) })
                },
                Err(e) => Err(definition_error_message(path, &e)),
            }
        },
    }
}

/// A compiled implementation of `function`: the compilation of an implementation of
/// the function's name whose lookups and trees are resolved, with the result bound to
/// the declared outputs.
pub open spec fn implementation_compiled(function: crate::model::Function, c: semantic::Function) -> bool {
    &&& crate::specs::output_binding(function, c) == Ok::<semantic::ResultBinding, crate::specs::OutputIssue>(c.result)
    &&& exists|raw: RawFunction| #![trigger semantic::compiled(&raw)]
        raw.name@ == function.name@ && definitions_resolved(&raw) && semantic::compiled(&raw) == Ok::<
            Seq<semantic::ValueView>,
            semantic::ErrorView,
        >(semantic::values_view(c.variables@))
}

/// The implementation of a function as the compiler takes it.
fn raw_function(
    path: &str,
    function: &crate::model::Function,
    declarations: &Vec<VariableDeclaration>,
    definitions: &Vec<(String, Definition)>,
    shared: &Vec<(String, EnumType)>,
    locations: &Vec<SourceLocation>,
    next: &mut usize,
) -> (r: Result<RawFunction, String>)
    ensures
        r matches Ok(raw) ==> definitions_resolved(&raw) && raw.variables.len() == declarations.len()
            && raw.name@ == function.name@ && raw.specification_path@ == path@,
{
    let mut inputs: Vec<RawInput> = Vec::new();
    let mut i: usize = 0;
    while i < function.inputs.len()
        invariant
            i <= function.inputs.len(),
        decreases function.inputs.len() - i,
    {
        let input = &function.inputs[i];
        let value_type = match input {
            crate::model::Input::Parameter(_) => RawInputType::Number,
            crate::model::Input::Enum { definition, .. } => RawInputType::Enum(
                resolved_enum_definition(definition, definition.enum_type.name.as_str()),
            ),
        };
        inputs.push(RawInput { name: input.name().to_owned(), value_type });
        i = i + 1;
    }
    let mut variables: Vec<RawVariable> = Vec::new();
    let mut k: usize = 0;
    while k < declarations.len()
        invariant
            k <= declarations.len(),
            variables.len() == k,
            forall|j: int| 0 <= j < k ==> variable_resolved(#[trigger] variables@[j]),
        decreases declarations.len() - k,
    {
        let v = raw_variable(path, function.name.as_str(), definitions, shared, k, &declarations[k], locations, next)?;
        variables.push(v);
        k = k + 1;
    }
    let raw = RawFunction { specification_path: path.to_owned(), name: function.name.clone(), inputs, variables };
    assert forall|j: int| 0 <= j < raw.variables.len() implies match (#[trigger] raw.variables@[j]).value {
        RawVariableValue::Lookup(l) => lookup_resolved(&*l),
        RawVariableValue::Tree(t) => tree_resolved(t.definition),
        _ => true,
    } by {
        assert(variable_resolved(raw.variables@[j]));
    }
    Ok(raw)
}

/// The function's implementation compiled, with the binding of its result checked
/// against its declared outputs.
fn compile_function(
    path: &str,
    function: &crate::model::Function,
    declarations: &Vec<VariableDeclaration>,
    definitions: &Vec<(String, Definition)>,
    shared: &Vec<(String, EnumType)>,
    locations: &Vec<SourceLocation>,
    next: &mut usize,
) -> (r: Result<semantic::Function, String>)
    ensures
        r matches Ok(c) ==> implementation_compiled(*function, c),
{
    let raw = raw_function(path, function, declarations, definitions, shared, locations, next)?;
    let mut compiled = match semantic::compile(&raw) {
        Ok(c) => c,
        Err(e) => {
            return Err(e.message());
        },
    };
    match validate_output(path, function, &compiled) {
        Ok(binding) => {
            compiled.result = binding;
            assert(raw.name@ == function.name@ && definitions_resolved(&raw) && semantic::compiled(&raw) == Ok::<
                Seq<semantic::ValueView>,
                semantic::ErrorView,
            >(semantic::values_view(compiled.variables@)));
            Ok(compiled)
        },
        Err(e) => Err(e.message()),
    }
}

/// The first lookup or tree definition of the file that does not resolve against the
/// file's definitions, as its message; every one is checked, used or not.
fn definitions_error(path: &str, definitions: &Vec<(String, Definition)>) -> (r: Option<String>) {
    let mut k: usize = 0;
    while k < definitions.len()
        invariant
            k <= definitions.len(),
        decreases definitions.len() - k,
    {
        let name = definitions[k].0.as_str();
        match &definitions[k].1 {
            Definition::Lookup(l) => {
                if let Err(e) = resolve_lookup_definition(name, l.clone(), definitions) {
                    return Some(definition_error_message(path, &e));
                }
            },
            Definition::Tree(t) => {
                if let Err(e) = resolve_tree_definition(name, copy_tree(t), definitions) {
                    return Some(definition_error_message(path, &e));
                }
            },
            _ => {},
        }
        k = k + 1;
    }
    None
}

/// Every function's declared inputs and outputs resolve against the file's definitions.
pub open spec fn signatures_resolve(document: SpecDocument) -> bool {
    forall|k: int| 0 <= k < document.functions.len() ==> {
        let f = #[trigger] document.functions@[k];
        &&& first_input_reference_issue(f.name@, f.inputs@, document.definitions@, f.inputs.len() as int) is None
        &&& output_reference_issue(f.name@, f.outputs, document.definitions@) is None
    }
}

/// `errors` grew by appending.
pub open spec fn appended(before: Seq<String>, after: Seq<String>) -> bool {
    before.len() <= after.len() && after.subrange(0, before.len() as int) == before
}

/// A specification document loaded: every function's inputs and outputs resolved
/// against the file's definitions and the origins of shared enumerations set, the
/// project's rule on statuses checked, every lookup and tree definition checked, each
/// formula located in `text` and parsed, and each implementation compiled. The
/// diagnostics are appended to `errors`: the first unresolved reference of a function
/// stops the file; otherwise the functions that lack the implementation their status
/// promises come first, then the first definition that does not resolve, the first
/// formula not found in the text, or the first implementation that does not compile,
/// stops it. The file
/// is loaded exactly when it adds no diagnostic.
pub fn load_document(
    path: &str,
    slug: String,
    text: &str,
    document: SpecDocument,
    shared: &Vec<(String, EnumType)>,
    errors: &mut Vec<String>,
) -> (r: Option<(Entry, Vec<Option<semantic::Function>>)>)
    ensures
        appended(old(errors)@, final(errors)@),
        r is Some <==> final(errors)@.len() == old(errors)@.len(),
        signatures_resolve(document) ==> {
            let added = strings_view(final(errors)@.subrange(old(errors)@.len() as int, final(errors)@.len() as int));
            missing_implementation_messages(path@, document.functions@).is_prefix_of(added)
        },
        r is Some ==> signatures_resolve(document) && forall|k: int| 0 <= k < document.functions.len()
            ==> !lacks_implementation(#[trigger] document.functions@[k]),
        r matches Some((entry, implementations)) ==> {
            &&& entry.path@ == path@
            &&& entry.slug@ == slug@
            &&& entry.spec.functions.len() == document.functions.len()
            &&& implementations.len() == document.functions.len()
            &&& forall|k: int| 0 <= k < document.functions.len() ==> {
                let f = #[trigger] entry.spec.functions@[k];
                let d = document.functions@[k];
                &&& f.name@ == d.name@
                &&& f.status@ == d.status@
                &&& f.inputs.len() == d.inputs.len()
                &&& crate::definitions::outputs_resolve(f.outputs, d.outputs, document.definitions@)
                &&& (implementations@[k] is Some <==> d.implementation is Some)
                &&& (implementations@[k] matches Some(c) ==> implementation_compiled(f, c))
            }
        },
{
    let ghost start = errors@;
    let SpecDocument { source, scope, scientific_notes, definitions, functions: declarations } = document;
    let ghost declared = declarations@;
    let mut signatures: Vec<(Vec<crate::model::Input>, crate::model::Outputs)> = Vec::new();
    let mut k: usize = 0;
    while k < declarations.len()
        invariant
            k <= declarations.len(),
            declared == declarations@,
            declared == document.functions@,
            definitions == document.definitions,
            signatures.len() == k,
            errors@ == start,
            start == old(errors)@,
            forall|j: int| 0 <= j < k ==> {
                let f = #[trigger] declarations@[j];
                &&& first_input_reference_issue(f.name@, f.inputs@, definitions@, f.inputs.len() as int) is None
                &&& output_reference_issue(f.name@, f.outputs, definitions@) is None
                &&& signatures@[j].0.len() == f.inputs.len()
                &&& crate::definitions::outputs_resolve(signatures@[j].1, f.outputs, definitions@)
            },
        decreases declarations.len() - k,
    {
        let f = &declarations[k];
        match resolve_signature(f.name.as_str(), &f.inputs, &f.outputs, &definitions) {
            Ok((inputs, outputs)) => {
                let placed = inputs_with_origins(inputs, path, shared);
                signatures.push((placed, outputs));
            },
            Err(e) => {
                errors.push(definition_error_message(path, &e));
                assert(errors@.subrange(0, start.len() as int) =~= start);
                proof {
                    let g = document.functions@[k as int];
                    assert(g == declarations@[k as int]);
                }
                return None;
            },
        }
        k = k + 1;
    }
    assert(signatures_resolve(SpecDocument { source, scope, scientific_notes, definitions, functions: declarations }));
    let missing = missing_implementations(path, &declarations);
    let blocked = missing.len() > 0;
    let mut m: usize = 0;
    while m < missing.len()
        invariant
            m <= missing.len(),
            errors@ == start + missing@.take(m as int),
            start == old(errors)@,
        decreases missing.len() - m,
    {
        errors.push(missing[m].clone());
        m = m + 1;
        assert(errors@ =~= start + missing@.take(m as int));
    }
    assert(missing@.take(missing.len() as int) =~= missing@);
    assert(errors@.subrange(start.len() as int, errors@.len() as int) =~= missing@);
    match definitions_error(path, &definitions) {
        Some(message) => {
            errors.push(message);
            assert(errors@.subrange(0, start.len() as int) =~= start);
            assert(strings_view(errors@.subrange(start.len() as int, errors@.len() as int)).take(missing.len() as int)
                =~= strings_view(missing@));
            return None;
        },
        None => {},
    }
    let ghost after_missing = errors@;
    assert(after_missing =~= start + missing@);
    let locations = match expression_locations(path, text, &declarations) {
        Ok(l) => l,
        Err(message) => {
            errors.push(message);
            assert(errors@.subrange(0, start.len() as int) =~= start);
            assert(strings_view(errors@.subrange(start.len() as int, errors@.len() as int)).take(missing.len() as int)
                =~= strings_view(missing@));
            return None;
        },
    };
    let mut next: usize = 0;
    let mut functions: Vec<crate::model::Function> = Vec::new();
    let mut implementations: Vec<Option<semantic::Function>> = Vec::new();
    let mut rest = declarations;
    let mut resolved = signatures;
    let mut k: usize = 0;
    while rest.len() > 0
        invariant
            k + rest.len() == declared.len(),
            rest@ == declared.subrange(k as int, declared.len() as int),
            resolved.len() == rest.len(),
            forall|j: int| 0 <= j < rest.len() ==> {
                &&& (#[trigger] resolved@[j]).0.len() == declared[k + j].inputs.len()
                &&& crate::definitions::outputs_resolve(resolved@[j].1, declared[k + j].outputs, definitions@)
            },
            functions.len() == k,
            implementations.len() == k,
            errors@ == after_missing,
            after_missing == start + missing@,
            start == old(errors)@,
            strings_view(missing@) == missing_implementation_messages(path@, declared),
            declared == document.functions@,
            declared.len() == document.functions.len(),
            forall|j: int| 0 <= j < k ==> {
                let f = #[trigger] functions@[j];
                let d = declared[j];
                &&& f.name@ == d.name@
                &&& f.status@ == d.status@
                &&& f.inputs.len() == d.inputs.len()
                &&& crate::definitions::outputs_resolve(f.outputs, d.outputs, definitions@)
                &&& (implementations@[j] is Some <==> d.implementation is Some)
                &&& (implementations@[j] matches Some(c) ==> implementation_compiled(f, c))
            },
        decreases rest.len(),
    {
        let d = rest.remove(0);
        let (inputs, outputs) = resolved.remove(0);
        assert(d == declared[k as int]);
        let FunctionDeclaration {
            name,
            status,
            public_api,
            scope: function_scope,
            inputs: _,
            outputs: _,
            verification_tolerances,
            implementation,
            verification_cases,
            edge_cases,
            documentation,
        } = d;
        let function = crate::model::Function {
            name,
            status,
            public_api,
            scope: function_scope,
            inputs,
            outputs,
            verification_tolerances,
            verification_cases,
            edge_cases,
            documentation,
        };
        let compiled = match &implementation {
            Some(variables) => match compile_function(path, &function, variables, &definitions, shared, &locations, &mut next) {
                Ok(c) => Some(c),
                Err(message) => {
                    errors.push(message);
                    assert(errors@.subrange(0, start.len() as int) =~= start);
                    assert(strings_view(errors@.subrange(start.len() as int, errors@.len() as int)).take(
                        missing.len() as int,
                    ) =~= strings_view(missing@));
                    return None;
                },
            },
            None => None,
        };
        functions.push(function);
        implementations.push(compiled);
        k = k + 1;
        assert(rest@ =~= declared.subrange(k as int, declared.len() as int));
    }
    if blocked {
        assert(errors@.subrange(0, start.len() as int) =~= start);
        return None;
    }
    assert(errors@ =~= start);
    assert(errors@.subrange(0, start.len() as int) =~= start);
    proof {
        assert forall|j: int| 0 <= j < declared.len() implies !lacks_implementation(#[trigger] declared[j]) by {
            lemma_no_missing(path@, declared, j);
        }
    }
    let entry = Entry {
        path: path.to_owned(),
        slug,
        spec: Spec { source, scope, scientific_notes, functions },
    };
    Some((entry, implementations))
}

proof fn lemma_no_missing(path: Seq<char>, fs: Seq<FunctionDeclaration>, j: int)
    requires
        missing_implementation_messages(path, fs).len() == 0,
        0 <= j < fs.len(),
    ensures
        !lacks_implementation(fs[j]),
    decreases fs.len(),
{
    if j < fs.len() - 1 {
        assert(fs.drop_last()[j] == fs[j]);
        lemma_no_missing(path, fs.drop_last(), j);
    }
}

/// A specification file as it was read: its text, its document with the references into
/// shared definitions followed, the origins of the copied definitions by alias, and its
/// metadata read from the document, or why that failed.
pub struct ParsedFile {
    pub text: String,
    pub document: JsonValue,
    pub shared: Vec<(String, EnumType)>,
    pub metadata: Result<SpecDocument, String>,
}

/// A file of the specification directory: its path, its file stem (`None` when it is not
/// UTF-8), and its contents, or the diagnostic of why it could not be read, parsed or
/// have its references followed.
pub struct SourceFile {
    pub path: String,
    pub stem: Option<String>,
    pub contents: Result<ParsedFile, String>,
}

/// Why a file's stem is not a slug, if it is not one.
pub open spec fn stem_issue(stem: Option<String>) -> Option<SlugError> {
    match stem {
        None => Some(SlugError::NonUtf8Slug),
        Some(s) => if is_identifier(s@) {
            None
        } else {
            Some(SlugError::InvalidSlug)
        },
    }
}

/// The path of the first shared-definitions document whose module has the name `slug`.
pub open spec fn colliding_document(slug: Seq<char>, modules: Seq<(String, String)>) -> Option<Seq<char>>
    decreases modules.len(),
{
    if modules.len() == 0 {
        None
    } else if modules[0].1@ == slug {
        Some(modules[0].0@)
    } else {
        colliding_document(slug, modules.drop_first())
    }
}

/// The message for a specification file whose module is also a shared-definitions module.
pub open spec fn collision_message(slug: Seq<char>, definition: Seq<char>, path: Seq<char>) -> Seq<char> {
    "shared definition module `"@ + slug + "` in "@ + definition + " conflicts with source module "@ + path
}

fn find_collision(slug: &str, modules: &Vec<(String, String)>) -> (r: Option<String>)
    ensures
        match colliding_document(slug@, modules@) {
            Some(d) => r matches Some(x) && x@ == d,
            None => r is None,
        },
{
    let mut k: usize = 0;
    assert(modules@.skip(0) =~= modules@);
    while k < modules.len()
        invariant
            k <= modules.len(),
            colliding_document(slug@, modules@) == colliding_document(slug@, modules@.skip(k as int)),
        decreases modules.len() - k,
    {
        assert(modules@.skip(k as int)[0] == modules@[k as int]);
        if crate::strings::str_equal(modules[k].1.as_str(), slug) {
            return Some(modules[k].0.clone());
        }
        assert(modules@.skip(k as int).drop_first() =~= modules@.skip(k + 1));
        k = k + 1;
    }
    None
}

fn collision_text(slug: &str, definition: &str, path: &str) -> (r: String)
    ensures
        r@ == collision_message(slug@, definition@, path@),
{
    let mut m = String::from_str("shared definition module `");
    m.append(slug);
    m.append("` in ");
    m.append(definition);
    m.append(" conflicts with source module ");
    m.append(path);
    proof {
        reveal_strlit("shared definition module `");
        reveal_strlit("` in ");
        reveal_strlit(" conflicts with source module ");
    }
    m
}

/// What a file is known to contribute to the diagnostics before its metadata is
/// compiled: that its name is not a slug, that its module collides with a shared
/// definitions module, that it could not be read, its schema violations, and that its
/// metadata could not be read.
pub open spec fn file_reported(f: SourceFile, modules: Seq<(String, String)>, schemas: Schemas, es: Seq<Seq<char>>) -> bool {
    match stem_issue(f.stem) {
        Some(e) => es.contains(slug_message(e, f.path@)),
        None => match colliding_document(f.stem->0@, modules) {
            Some(d) => es.contains(collision_message(f.stem->0@, d, f.path@)),
            None => match f.contents {
                Err(m) => es.contains(m@),
                Ok(p) => {
                    &&& forall|i: int| 0 <= i < specification_violations(f.path@, schemas, p.document@).len()
                        ==> es.contains(#[trigger] specification_violations(f.path@, schemas, p.document@)[i])
                    &&& (p.metadata matches Err(m) ==> es.contains(m@))
                },
            },
        },
    }
}

/// A file that does not stop before its metadata is compiled.
pub open spec fn file_admitted(f: SourceFile, modules: Seq<(String, String)>, schemas: Schemas) -> bool {
    &&& stem_issue(f.stem) is None
    &&& colliding_document(f.stem->0@, modules) is None
    &&& f.contents matches Ok(p) && specification_violations(f.path@, schemas, p.document@).len() == 0 && p.metadata is Ok
}

proof fn lemma_appended_contains(before: Seq<String>, after: Seq<String>, m: Seq<char>)
    requires
        appended(before, after),
        strings_view(before).contains(m),
    ensures
        strings_view(after).contains(m),
{
    let i = choose|i: int| 0 <= i < strings_view(before).len() && strings_view(before)[i] == m;
    assert(after.subrange(0, before.len() as int)[i] == after[i]);
    assert(strings_view(after)[i] == m);
}

proof fn lemma_reported_monotone(f: SourceFile, modules: Seq<(String, String)>, schemas: Schemas, before: Seq<String>, after: Seq<String>)
    requires
        appended(before, after),
        file_reported(f, modules, schemas, strings_view(before)),
    ensures
        file_reported(f, modules, schemas, strings_view(after)),
{
    match stem_issue(f.stem) {
        Some(e) => lemma_appended_contains(before, after, slug_message(e, f.path@)),
        None => match colliding_document(f.stem->0@, modules) {
            Some(d) => lemma_appended_contains(before, after, collision_message(f.stem->0@, d, f.path@)),
            None => match f.contents {
                Err(m) => lemma_appended_contains(before, after, m@),
                Ok(p) => {
                    let vs = specification_violations(f.path@, schemas, p.document@);
                    assert forall|i: int| 0 <= i < vs.len() implies strings_view(after).contains(#[trigger] vs[i]) by {
                        lemma_appended_contains(before, after, vs[i]);
                    }
                    if let Err(m) = p.metadata {
                        lemma_appended_contains(before, after, m@);
                    }
                },
            },
        },
    }
}

proof fn lemma_appended_trans(a: Seq<String>, b: Seq<String>, c: Seq<String>)
    requires
        appended(a, b),
        appended(b, c),
    ensures
        appended(a, c),
{
    assert(c.subrange(0, a.len() as int) =~= b.subrange(0, a.len() as int));
}

fn push_message(errors: &mut Vec<String>, m: String)
    ensures
        final(errors)@ == old(errors)@.push(m),
        appended(old(errors)@, final(errors)@),
        strings_view(final(errors)@).contains(m@),
{
    errors.push(m);
    assert(errors@.subrange(0, old(errors)@.len() as int) =~= old(errors)@);
    assert(strings_view(errors@)[errors@.len() - 1] == m@);
}

/// One specification file: reported and skipped when its name is not a slug or its
/// module collides with a shared-definitions module; otherwise its diagnostics of
/// reading, of the schema and of its metadata, then those of loading its document.
fn load_file(file: SourceFile, modules: &Vec<(String, String)>, schemas: &Schemas, errors: &mut Vec<String>) -> (r: Option<
    (Entry, Vec<Option<semantic::Function>>),
>)
    ensures
        appended(old(errors)@, final(errors)@),
        file_reported(file, modules@, *schemas, strings_view(final(errors)@)),
        r is None ==> final(errors)@.len() > old(errors)@.len(),
        r matches Some((entry, _)) ==> {
            &&& final(errors)@ == old(errors)@
            &&& file_admitted(file, modules@, *schemas)
            &&& entry.path@ == file.path@
            &&& entry.slug@ == file.stem->0@
        },
{
    let ghost whole = file;
    let SourceFile { path, stem, contents } = file;
    let slug = match source_slug(match &stem {
        Some(s) => Some(s.as_str()),
        None => None,
    }) {
        Ok(slug) => slug,
        Err(e) => {
            push_message(errors, e.message(path.as_str()));
            return None;
        },
    };
    match find_collision(slug.as_str(), modules) {
        Some(definition) => {
            push_message(errors, collision_text(slug.as_str(), definition.as_str(), path.as_str()));
            return None;
        },
        None => {},
    }
    let parsed = match contents {
        Ok(p) => p,
        Err(m) => {
            push_message(errors, m);
            return None;
        },
    };
    let ParsedFile { text, document, shared, metadata } = parsed;
    let violations = specification_errors(path.as_str(), schemas, &document);
    let ghost before = errors@;
    assert(errors@.subrange(0, errors@.len() as int) =~= errors@);
    let mut k: usize = 0;
    while k < violations.len()
        invariant
            k <= violations.len(),
            appended(old(errors)@, errors@),
            errors@ == before + violations@.take(k as int),
            before == old(errors)@,
        decreases violations.len() - k,
    {
        errors.push(violations[k].clone());
        k = k + 1;
        assert(errors@ =~= before + violations@.take(k as int));
        assert(errors@.subrange(0, old(errors)@.len() as int) =~= old(errors)@);
    }
    assert(violations@.take(violations.len() as int) =~= violations@);
    assert forall|i: int| 0 <= i < violations.len() implies strings_view(errors@).contains(#[trigger] strings_view(violations@)[i]) by {
        assert(strings_view(errors@)[before.len() + i] == strings_view(violations@)[i]);
    }
    let ghost after_schema = errors@;
    let spec = match metadata {
        Ok(d) => d,
        Err(m) => {
            push_message(errors, m);
            proof {
                lemma_appended_trans(old(errors)@, after_schema, errors@);
                let vs = strings_view(violations@);
                assert forall|i: int| 0 <= i < vs.len() implies strings_view(errors@).contains(#[trigger] vs[i]) by {
                    lemma_appended_contains(after_schema, errors@, vs[i]);
                }
            }
            return None;
        },
    };
    let had_violations = violations.len() > 0;
    let ghost before_load = errors@;
    let result = load_document(path.as_str(), slug, text.as_str(), spec, &shared, errors);
    proof {
        let vs = strings_view(violations@);
        assert forall|i: int| 0 <= i < vs.len() implies strings_view(errors@).contains(#[trigger] vs[i]) by {
            lemma_appended_contains(before_load, errors@, vs[i]);
        }
        assert(errors@.subrange(0, old(errors)@.len() as int) =~= old(errors)@) by {
            assert(before_load.subrange(0, old(errors)@.len() as int) == old(errors)@);
            assert(errors@.subrange(0, before_load.len() as int) == before_load);
        }
    }
    if had_violations {
        return None;
    }
    assert(errors@.len() >= before_load.len());
    result
}

/// Loads every specification file, in order (see `load_file`); the corpus loads exactly
/// when no file reports anything, and then each file gives its entry.
pub fn load_entries(files: Vec<SourceFile>, modules: &Vec<(String, String)>, schemas: &Schemas) -> (r: Result<
    Vec<(Entry, Vec<Option<semantic::Function>>)>,
    Vec<String>,
>)
    ensures
        r matches Err(es) ==> es.len() > 0 && forall|i: int| 0 <= i < files.len()
            ==> file_reported(#[trigger] files@[i], modules@, *schemas, strings_view(es@)),
        r matches Ok(v) ==> v.len() == files.len() && forall|i: int| 0 <= i < files.len() ==> {
            &&& file_admitted(#[trigger] files@[i], modules@, *schemas)
            &&& v@[i].0.path@ == files@[i].path@
            &&& v@[i].0.slug@ == files@[i].stem->0@
        },
        (exists|i: int| 0 <= i < files.len() && !file_admitted(#[trigger] files@[i], modules@, *schemas)) ==> r is Err,
{
    let ghost original = files@;
    let mut rest = files;
    let mut loaded: Vec<(Entry, Vec<Option<semantic::Function>>)> = Vec::new();
    let mut errors: Vec<String> = Vec::new();
    let mut k: usize = 0;
    while rest.len() > 0
        invariant
            k + rest.len() == original.len(),
            original == files@,
            original.len() == files.len(),
            rest@ == original.subrange(k as int, original.len() as int),
            forall|i: int| 0 <= i < k ==> file_reported(#[trigger] original[i], modules@, *schemas, strings_view(errors@)),
            (exists|i: int| 0 <= i < k && !file_admitted(#[trigger] original[i], modules@, *schemas)) ==> errors.len() > 0,
            errors.len() == 0 ==> loaded.len() == k && forall|i: int| 0 <= i < k ==> {
                &&& file_admitted(#[trigger] original[i], modules@, *schemas)
                &&& loaded@[i].0.path@ == original[i].path@
                &&& loaded@[i].0.slug@ == original[i].stem->0@
            },
        decreases rest.len(),
    {
        let file = rest.remove(0);
        assert(file == original[k as int]);
        let ghost before = errors@;
        let result = load_file(file, modules, schemas, &mut errors);
        proof {
            assert forall|i: int| 0 <= i < k implies file_reported(#[trigger] original[i], modules@, *schemas, strings_view(errors@)) by {
                lemma_reported_monotone(original[i], modules@, *schemas, before, errors@);
            }
        }
        match result {
            Some(item) => {
                if errors.len() == 0 {
                    loaded.push(item);
                }
            },
            None => {},
        }
        k = k + 1;
        assert(rest@ =~= original.subrange(k as int, original.len() as int));
    }
    if errors.len() > 0 {
        return Err(errors);
    }
    Ok(loaded)
}

} // verus!
