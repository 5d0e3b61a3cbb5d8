//! The text form of a corpus report.

use vstd::prelude::*;
use vstd::string::*;
use crate::corpus_report::{
    status_label, status_text, BlockedFunction, Count, InputFrequency, InputKind, QuantityUnitEntry, Report,
    TerritoryFrequency, VerificationCoverage,
};
use crate::render::markdown::{lines_of, text_lines};
use crate::strings::{decimal, decimal_text};
use crate::text::concat_map;

verus! {

/// The shares that the text report prints as percentages, each already written with
/// one decimal: of each status and of each input in the number of functions, and of the
/// functions with verification cases and with edge cases in each coverage.
pub struct Shares {
    pub by_status: Vec<String>,
    pub inputs: Vec<String>,
    pub all_functions: (String, String),
    pub implemented_functions: (String, String),
    pub ready_for_implementation_functions: (String, String),
}

/// Pieces of text, one after the other.
pub open spec fn joined(pieces: Seq<Seq<char>>) -> Seq<char> {
    concat_map(pieces, |p: Seq<char>| p)
}

pub open spec fn pieces_view(v: Seq<String>) -> Seq<Seq<char>> {
    v.map_values(|s: String| s@)
}

fn push(pieces: &mut Vec<String>, piece: String)
    ensures
        pieces_view(final(pieces)@) == pieces_view(old(pieces)@).push(piece@),
{
    pieces.push(piece);
    assert(pieces_view(pieces@) =~= pieces_view(old(pieces)@).push(piece@));
}

fn push_str(pieces: &mut Vec<String>, piece: &str)
    ensures
        pieces_view(final(pieces)@) == pieces_view(old(pieces)@).push(piece@),
{
    push(pieces, piece.to_owned());
}

fn push_number(pieces: &mut Vec<String>, n: usize)
    ensures
        pieces_view(final(pieces)@) == pieces_view(old(pieces)@).push(decimal(n as nat)),
{
    push(pieces, decimal_text(n));
}

/// A labelled coverage: its cases, its functions with cases and their share, its edge
/// cases and its functions with edge cases and their share.
pub open spec fn coverage_pieces(label: Seq<char>, c: VerificationCoverage, shares: (String, String)) -> Seq<Seq<char>> {
    seq![
        label, ":\n  Verification cases: "@, decimal(c.verification_cases as nat),
        "\n  Functions with verification cases: "@, decimal(c.functions_with_verification_cases as nat), " ("@,
        shares.0@, "%)\n  Edge cases: "@, decimal(c.edge_cases as nat), "\n  Functions with edge cases: "@,
        decimal(c.functions_with_edge_cases as nat), " ("@, shares.1@, "%)\n"@,
    ]
}

fn push_coverage(pieces: &mut Vec<String>, label: &str, c: &VerificationCoverage, shares: &(String, String))
    ensures
        pieces_view(final(pieces)@) == pieces_view(old(pieces)@) + coverage_pieces(label@, *c, *shares),
{
    push_str(pieces, label);
    push_str(pieces, ":\n  Verification cases: ");
    push_number(pieces, c.verification_cases);
    push_str(pieces, "\n  Functions with verification cases: ");
    push_number(pieces, c.functions_with_verification_cases);
    push_str(pieces, " (");
    push_str(pieces, shares.0.as_str());
    push_str(pieces, "%)\n  Edge cases: ");
    push_number(pieces, c.edge_cases);
    push_str(pieces, "\n  Functions with edge cases: ");
    push_number(pieces, c.functions_with_edge_cases);
    push_str(pieces, " (");
    push_str(pieces, shares.1.as_str());
    push_str(pieces, "%)\n");
    assert(pieces_view(pieces@) =~= pieces_view(old(pieces)@) + coverage_pieces(label@, *c, *shares));
}

/// Each count on an indented line, as its value, a colon and its count.
pub open spec fn count_lines(counts: Seq<Count>) -> Seq<Seq<char>> {
    counts.map_values(|c: Count| "  "@ + c.value@ + ": "@ + decimal(c.count as nat) + "\n"@)
}

fn count_line(c: &Count) -> (r: String)
    ensures
        r@ == "  "@ + c.value@ + ": "@ + decimal(c.count as nat) + "\n"@,
{
    let mut r = String::from_str("  ");
    r.append(c.value.as_str());
    r.append(": ");
    let n = decimal_text(c.count);
    r.append(n.as_str());
    r.append("\n");
    proof {
        reveal_strlit("  ");
        reveal_strlit(": ");
        reveal_strlit("\n");
    }
    r
}

fn push_counts(pieces: &mut Vec<String>, counts: &Vec<Count>)
    ensures
        pieces_view(final(pieces)@) == pieces_view(old(pieces)@) + count_lines(counts@),
{
    let mut k: usize = 0;
    while k < counts.len()
        invariant
            k <= counts.len(),
            pieces_view(pieces@) == pieces_view(old(pieces)@) + count_lines(counts@.take(k as int)),
        decreases counts.len() - k,
    {
        let line = count_line(&counts[k]);
        push(pieces, line);
        assert(count_lines(counts@.take(k + 1)) =~= count_lines(counts@.take(k as int)).push(
            "  "@ + counts@[k as int].value@ + ": "@ + decimal(counts@[k as int].count as nat) + "\n"@,
        ));
        k = k + 1;
    }
    assert(counts@.take(counts.len() as int) =~= counts@);
}

/// A list of counts, or a line saying that none was declared.
pub open spec fn value_lines(counts: Seq<Count>) -> Seq<Seq<char>> {
    if counts.len() == 0 {
        seq!["  None declared\n"@]
    } else {
        count_lines(counts)
    }
}

/// Each status with its count and its share.
pub open spec fn status_lines(counts: Seq<Count>, shares: Seq<String>) -> Seq<Seq<char>> {
    Seq::new(counts.len(), |i: int| status_text(counts[i].value@) + ": "@ + decimal(counts[i].count as nat) + " ("@ + shares[i]@ + "%)\n"@)
}

/// The name of an input kind.
pub open spec fn kind_text(kind: InputKind) -> Seq<char> {
    match kind {
        InputKind::Numeric => "numeric"@,
        InputKind::Categorical => "categorical"@,
    }
}

/// Each input with its kind, its number of functions and its share.
pub open spec fn input_lines(inputs: Seq<InputFrequency>, shares: Seq<String>) -> Seq<Seq<char>> {
    Seq::new(inputs.len(), |i: int| inputs[i].name@ + " ("@ + kind_text(inputs[i].kind) + "): "@ + decimal(inputs[i].functions as nat) + " ("@
        + shares[i]@ + "%)\n"@)
}

/// Each unused quantity-unit entry on an indented line.
pub open spec fn unused_lines(entries: Seq<QuantityUnitEntry>) -> Seq<Seq<char>> {
    entries.map_values(|e: QuantityUnitEntry| "  "@ + e.quantity@ + " ["@ + e.unit@ + "]\n"@)
}

/// Each territory with its numbers of sources and functions.
pub open spec fn territory_lines(rows: Seq<TerritoryFrequency>) -> Seq<Seq<char>> {
    rows.map_values(|t: TerritoryFrequency| "  "@ + t.territory@ + ": "@ + decimal(t.source_specifications as nat) + " sources, "@
        + decimal(t.functions as nat) + " functions\n"@)
}

/// Texts each on an indented line after a label.
pub open spec fn labelled_lines(label: Seq<char>, texts: Seq<String>) -> Seq<Seq<char>> {
    texts.map_values(|t: String| label + t@ + "\n"@)
}

/// The lines of a blocked function: its source and name, its warnings, its notes and,
/// when there are any, the scientific notes of its source line by line.
pub open spec fn blocked_lines(f: BlockedFunction) -> Seq<Seq<char>> {
    seq![f.source_identifier@ + " / "@ + f.function_name@ + "\n"@] + labelled_lines("  Warning: "@, f.documentation_warnings@)
        + labelled_lines("  Note: "@, f.documentation_notes@) + match f.scientific_notes {
            Some(notes) => seq!["  Source scientific notes:\n"@] + text_lines(notes@).map_values(|l: Seq<char>| "    "@ + l + "\n"@),
            None => seq![],
        }
}

/// The blocked functions' lines, one function after the other.
pub open spec fn all_blocked_lines(fs: Seq<BlockedFunction>) -> Seq<Seq<char>>
    decreases fs.len(),
{
    if fs.len() == 0 {
        seq![]
    } else {
        all_blocked_lines(fs.drop_last()) + blocked_lines(fs.last())
    }
}

/// The sources section of the text report.
pub open spec fn sources_pieces(r: Report) -> Seq<Seq<char>> {
    seq![
        "ptfkit corpus report\n\nSources\n-------\n"@, "Specifications: "@, decimal(r.sources.specification_files as nat),
        "\nRepresented publications: "@, decimal(r.sources.represented_publications as nat), "\n"@,
    ] + match (r.sources.earliest_publication_year, r.sources.latest_publication_year) {
        (Some(first), Some(last)) => seq!["Publication years: "@, decimal(first as nat), "-"@, decimal(last as nat), "\n"@],
        _ => seq!["Publication years: unavailable\n"@],
    } + if r.sources.unresolved_publication_years.len() == 0 {
        seq![]
    } else {
        seq!["Unresolved publication years: "@] + unresolved_joined(r.sources.unresolved_publication_years@) + seq!["\n"@]
    }
}

/// The functions section: the total, then each status with its count and share.
pub open spec fn functions_pieces(r: Report, shares: Shares) -> Seq<Seq<char>> {
    seq!["\nFunctions\n---------\n"@, "Total: "@, decimal(r.functions.total as nat), "\n"@] + status_lines(
        r.functions.by_status@,
        shares.by_status@,
    )
}

/// The verification section: the case totals, the cases by provenance and the coverage
/// of all functions.
pub open spec fn verification_pieces(r: Report, shares: Shares) -> Seq<Seq<char>> {
    seq![
        "\nVerification\n------------\n"@, "Total verification cases: "@, decimal(r.verification.cases_total as nat),
        "\nPublished cases: "@, decimal(r.verification.published_cases as nat), "\nCalculated cases: "@,
        decimal(r.verification.calculated_cases as nat), "\nFunctions without verification cases: "@,
        decimal(r.verification.functions_without_cases as nat), "\n"@, "Cases by provenance:\n"@,
    ] + count_lines(r.verification.by_kind@) + coverage_pieces("All functions"@, r.verification.all_functions, shares.all_functions)
}

/// The quantity registry section, followed by the coverage of the implemented and of the
/// ready-for-implementation functions.
pub open spec fn registry_pieces(r: Report, shares: Shares) -> Seq<Seq<char>> {
    let registry = r.quantity_registry;
    seq![
        "\nQuantity registry\n-----------------\n"@, "Registered quantities: "@, decimal(registry.registered_quantities as nat),
        "\nQuantity-unit combinations in use: "@, decimal(registry.quantity_unit_combinations_in_use as nat),
        "\nOutputs using registry defaults: "@, decimal(registry.outputs_using_registry_defaults as nat),
        "\nOutputs using source-specific overrides: "@, decimal(registry.outputs_using_source_specific_overrides as nat),
        "\nMissing quantity or unit validation failures: "@, decimal(registry.missing_quantity_or_unit_validation_failures as nat),
        "\n"@, "Unused quantity-unit entries:\n"@,
    ] + unused_lines(registry.unused_quantity_unit_entries@) + coverage_pieces(
        "Implemented functions"@,
        r.verification.implemented_functions,
        shares.implemented_functions,
    ) + coverage_pieces(
        "Ready-for-implementation functions"@,
        r.verification.ready_for_implementation_functions,
        shares.ready_for_implementation_functions,
    )
}

/// The inputs and outputs sections.
pub open spec fn io_pieces(r: Report, shares: Shares) -> Seq<Seq<char>> {
    seq!["\nInputs\n------\n"@] + input_lines(r.inputs@, shares.inputs@) + seq![
        "\nOutputs\n-------\n"@, "Scalar functions: "@, decimal(r.outputs.scalar_functions as nat), "\nRecord functions: "@,
        decimal(r.outputs.record_functions as nat), "\nOutput fields:\n"@,
    ] + count_lines(r.outputs.field_names@)
}

/// The scope section.
pub open spec fn scope_pieces(r: Report) -> Seq<Seq<char>> {
    let geography = r.scope.calibration_geography;
    seq!["\nScope\n-----\nPrediction targets:\n"@] + count_lines(r.scope.prediction_targets@) + seq!["h(theta) models:\n"@]
        + value_lines(r.scope.models.h_theta@) + seq!["K(h) models:\n"@] + value_lines(r.scope.models.k_h@) + seq![
        "Sources with territory: "@, decimal(geography.source_specifications_with_territory as nat), "\nFunctions with territory: "@,
        decimal(geography.functions_with_territory as nat), "\nSources with dataset descriptions: "@,
        decimal(geography.source_specifications_with_dataset as nat), "\n"@,
    ] + territory_lines(geography.territories@)
}

/// The blocked functions section.
pub open spec fn blocked_pieces(r: Report) -> Seq<Seq<char>> {
    seq!["\nBlocked functions\n-----------------\n"@] + if r.blocked_functions.len() == 0 {
        seq!["None\n"@]
    } else {
        all_blocked_lines(r.blocked_functions@) + seq!["Blocker classification: unavailable from the current schema.\n"@]
    }
}

/// The pieces of the text report, section by section.
pub open spec fn report_pieces(r: Report, shares: Shares) -> Seq<Seq<char>> {
    sources_pieces(r) + functions_pieces(r, shares) + verification_pieces(r, shares) + registry_pieces(r, shares) + io_pieces(
        r,
        shares,
    ) + scope_pieces(r) + blocked_pieces(r)
}

/// Texts separated by a comma and a space.
pub open spec fn unresolved_joined(texts: Seq<String>) -> Seq<Seq<char>> {
    Seq::new(texts.len(), |i: int| if i == 0 { texts[i]@ } else { ", "@ + texts[i]@ })
}

fn push_unresolved(pieces: &mut Vec<String>, texts: &Vec<String>)
    ensures
        pieces_view(final(pieces)@) == pieces_view(old(pieces)@) + unresolved_joined(texts@),
{
    let mut k: usize = 0;
    while k < texts.len()
        invariant
            k <= texts.len(),
            pieces_view(pieces@) == pieces_view(old(pieces)@) + unresolved_joined(texts@).take(k as int),
        decreases texts.len() - k,
    {
        if k == 0 {
            push(pieces, texts[k].clone());
        } else {
            let mut t = String::from_str(", ");
            t.append(texts[k].as_str());
            push(pieces, t);
        }
        assert(unresolved_joined(texts@).take(k + 1) =~= unresolved_joined(texts@).take(k as int).push(unresolved_joined(texts@)[k as int]));
        k = k + 1;
    }
    assert(unresolved_joined(texts@).take(texts.len() as int) =~= unresolved_joined(texts@));
}

fn push_sources(pieces: &mut Vec<String>, r: &Report)
    ensures
        pieces_view(final(pieces)@) == pieces_view(old(pieces)@) + sources_pieces(*r),
{
    push_str(pieces, "ptfkit corpus report\n\nSources\n-------\n");
    push_str(pieces, "Specifications: ");
    push_number(pieces, r.sources.specification_files);
    push_str(pieces, "\nRepresented publications: ");
    push_number(pieces, r.sources.represented_publications);
    push_str(pieces, "\n");
    let ghost opening = pieces_view(pieces@);
    match (r.sources.earliest_publication_year, r.sources.latest_publication_year) {
        (Some(first), Some(last)) => {
            push_str(pieces, "Publication years: ");
            push_number(pieces, first as usize);
            push_str(pieces, "-");
            push_number(pieces, last as usize);
            push_str(pieces, "\n");
        },
        _ => push_str(pieces, "Publication years: unavailable\n"),
    }
    let ghost years = pieces_view(pieces@);
    if r.sources.unresolved_publication_years.len() > 0 {
        push_str(pieces, "Unresolved publication years: ");
        push_unresolved(pieces, &r.sources.unresolved_publication_years);
        push_str(pieces, "\n");
    }
    assert(pieces_view(pieces@) =~= pieces_view(old(pieces)@) + sources_pieces(*r));
}

fn push_status_lines(pieces: &mut Vec<String>, counts: &Vec<Count>, shares: &Vec<String>)
    requires
        shares.len() == counts.len(),
    ensures
        pieces_view(final(pieces)@) == pieces_view(old(pieces)@) + status_lines(counts@, shares@),
{
    let mut k: usize = 0;
    while k < counts.len()
        invariant
            k <= counts.len(),
            shares.len() == counts.len(),
            pieces_view(pieces@) == pieces_view(old(pieces)@) + status_lines(counts@, shares@).take(k as int),
        decreases counts.len() - k,
    {
        let mut line = status_label(counts[k].value.as_str());
        line.append(": ");
        let n = decimal_text(counts[k].count);
        line.append(n.as_str());
        line.append(" (");
        line.append(shares[k].as_str());
        line.append("%)\n");
        proof {
            reveal_strlit(": ");
            reveal_strlit(" (");
            reveal_strlit("%)\n");
        }
        push(pieces, line);
        assert(status_lines(counts@, shares@).take(k + 1) =~= status_lines(counts@, shares@).take(k as int).push(
            status_lines(counts@, shares@)[k as int],
        ));
        k = k + 1;
    }
    assert(status_lines(counts@, shares@).take(counts.len() as int) =~= status_lines(counts@, shares@));
}

fn push_functions(pieces: &mut Vec<String>, r: &Report, shares: &Shares)
    requires
        shares.by_status.len() == r.functions.by_status.len(),
    ensures
        pieces_view(final(pieces)@) == pieces_view(old(pieces)@) + functions_pieces(*r, *shares),
{
    push_str(pieces, "\nFunctions\n---------\n");
    push_str(pieces, "Total: ");
    push_number(pieces, r.functions.total);
    push_str(pieces, "\n");
    push_status_lines(pieces, &r.functions.by_status, &shares.by_status);
    assert(pieces_view(pieces@) =~= pieces_view(old(pieces)@) + functions_pieces(*r, *shares));
}

fn push_verification(pieces: &mut Vec<String>, r: &Report, shares: &Shares)
    ensures
        pieces_view(final(pieces)@) == pieces_view(old(pieces)@) + verification_pieces(*r, *shares),
{
    push_str(pieces, "\nVerification\n------------\n");
    push_str(pieces, "Total verification cases: ");
    push_number(pieces, r.verification.cases_total);
    push_str(pieces, "\nPublished cases: ");
    push_number(pieces, r.verification.published_cases);
    push_str(pieces, "\nCalculated cases: ");
    push_number(pieces, r.verification.calculated_cases);
    push_str(pieces, "\nFunctions without verification cases: ");
    push_number(pieces, r.verification.functions_without_cases);
    push_str(pieces, "\n");
    push_str(pieces, "Cases by provenance:\n");
    push_counts(pieces, &r.verification.by_kind);
    push_coverage(pieces, "All functions", &r.verification.all_functions, &shares.all_functions);
    assert(pieces_view(pieces@) =~= pieces_view(old(pieces)@) + verification_pieces(*r, *shares));
}

fn push_unused(pieces: &mut Vec<String>, entries: &Vec<QuantityUnitEntry>)
    ensures
        pieces_view(final(pieces)@) == pieces_view(old(pieces)@) + unused_lines(entries@),
{
    let mut k: usize = 0;
    while k < entries.len()
        invariant
            k <= entries.len(),
            pieces_view(pieces@) == pieces_view(old(pieces)@) + unused_lines(entries@.take(k as int)),
        decreases entries.len() - k,
    {
        let mut line = String::from_str("  ");
        line.append(entries[k].quantity.as_str());
        line.append(" [");
        line.append(entries[k].unit.as_str());
        line.append("]\n");
        proof {
            reveal_strlit("  ");
            reveal_strlit(" [");
            reveal_strlit("]\n");
        }
        push(pieces, line);
        assert(unused_lines(entries@.take(k + 1)) =~= unused_lines(entries@.take(k as int)).push(
            "  "@ + entries@[k as int].quantity@ + " ["@ + entries@[k as int].unit@ + "]\n"@,
        ));
        k = k + 1;
    }
    assert(entries@.take(entries.len() as int) =~= entries@);
}

fn push_registry(pieces: &mut Vec<String>, r: &Report, shares: &Shares)
    ensures
        pieces_view(final(pieces)@) == pieces_view(old(pieces)@) + registry_pieces(*r, *shares),
{
    let registry = &r.quantity_registry;
    push_str(pieces, "\nQuantity registry\n-----------------\n");
    push_str(pieces, "Registered quantities: ");
    push_number(pieces, registry.registered_quantities);
    push_str(pieces, "\nQuantity-unit combinations in use: ");
    push_number(pieces, registry.quantity_unit_combinations_in_use);
    push_str(pieces, "\nOutputs using registry defaults: ");
    push_number(pieces, registry.outputs_using_registry_defaults);
    push_str(pieces, "\nOutputs using source-specific overrides: ");
    push_number(pieces, registry.outputs_using_source_specific_overrides);
    push_str(pieces, "\nMissing quantity or unit validation failures: ");
    push_number(pieces, registry.missing_quantity_or_unit_validation_failures);
    push_str(pieces, "\n");
    push_str(pieces, "Unused quantity-unit entries:\n");
    push_unused(pieces, &registry.unused_quantity_unit_entries);
    push_coverage(pieces, "Implemented functions", &r.verification.implemented_functions, &shares.implemented_functions);
    push_coverage(
        pieces,
        "Ready-for-implementation functions",
        &r.verification.ready_for_implementation_functions,
        &shares.ready_for_implementation_functions,
    );
    assert(pieces_view(pieces@) =~= pieces_view(old(pieces)@) + registry_pieces(*r, *shares));
}

fn push_inputs(pieces: &mut Vec<String>, inputs: &Vec<InputFrequency>, shares: &Vec<String>)
    requires
        shares.len() == inputs.len(),
    ensures
        pieces_view(final(pieces)@) == pieces_view(old(pieces)@) + input_lines(inputs@, shares@),
{
    let mut k: usize = 0;
    while k < inputs.len()
        invariant
            k <= inputs.len(),
            shares.len() == inputs.len(),
            pieces_view(pieces@) == pieces_view(old(pieces)@) + input_lines(inputs@, shares@).take(k as int),
        decreases inputs.len() - k,
    {
        let mut line = inputs[k].name.clone();
        line.append(" (");
        match inputs[k].kind {
            InputKind::Numeric => line.append("numeric"),
            InputKind::Categorical => line.append("categorical"),
        }
        line.append("): ");
        let n = decimal_text(inputs[k].functions);
        line.append(n.as_str());
        line.append(" (");
        line.append(shares[k].as_str());
        line.append("%)\n");
        proof {
            reveal_strlit(" (");
            reveal_strlit("numeric");
            reveal_strlit("categorical");
            reveal_strlit("): ");
            reveal_strlit("%)\n");
        }
        push(pieces, line);
        assert(input_lines(inputs@, shares@).take(k + 1) =~= input_lines(inputs@, shares@).take(k as int).push(
            input_lines(inputs@, shares@)[k as int],
        ));
        k = k + 1;
    }
    assert(input_lines(inputs@, shares@).take(inputs.len() as int) =~= input_lines(inputs@, shares@));
}

fn push_io(pieces: &mut Vec<String>, r: &Report, shares: &Shares)
    requires
        shares.inputs.len() == r.inputs.len(),
    ensures
        pieces_view(final(pieces)@) == pieces_view(old(pieces)@) + io_pieces(*r, *shares),
{
    push_str(pieces, "\nInputs\n------\n");
    push_inputs(pieces, &r.inputs, &shares.inputs);
    push_str(pieces, "\nOutputs\n-------\n");
    push_str(pieces, "Scalar functions: ");
    push_number(pieces, r.outputs.scalar_functions);
    push_str(pieces, "\nRecord functions: ");
    push_number(pieces, r.outputs.record_functions);
    push_str(pieces, "\nOutput fields:\n");
    push_counts(pieces, &r.outputs.field_names);
    assert(pieces_view(pieces@) =~= pieces_view(old(pieces)@) + io_pieces(*r, *shares));
}

fn push_values(pieces: &mut Vec<String>, counts: &Vec<Count>)
    ensures
        pieces_view(final(pieces)@) == pieces_view(old(pieces)@) + value_lines(counts@),
{
    if counts.len() == 0 {
        push_str(pieces, "  None declared\n");
    } else {
        push_counts(pieces, counts);
    }
}

fn push_territories(pieces: &mut Vec<String>, rows: &Vec<TerritoryFrequency>)
    ensures
        pieces_view(final(pieces)@) == pieces_view(old(pieces)@) + territory_lines(rows@),
{
    let mut k: usize = 0;
    while k < rows.len()
        invariant
            k <= rows.len(),
            pieces_view(pieces@) == pieces_view(old(pieces)@) + territory_lines(rows@.take(k as int)),
        decreases rows.len() - k,
    {
        let mut line = String::from_str("  ");
        line.append(rows[k].territory.as_str());
        line.append(": ");
        let a = decimal_text(rows[k].source_specifications);
        line.append(a.as_str());
        line.append(" sources, ");
        let b = decimal_text(rows[k].functions);
        line.append(b.as_str());
        line.append(" functions\n");
        proof {
            reveal_strlit("  ");
            reveal_strlit(": ");
            reveal_strlit(" sources, ");
            reveal_strlit(" functions\n");
        }
        push(pieces, line);
        assert(territory_lines(rows@.take(k + 1)) =~= territory_lines(rows@.take(k as int)).push(
            "  "@ + rows@[k as int].territory@ + ": "@ + decimal(rows@[k as int].source_specifications as nat) + " sources, "@
                + decimal(rows@[k as int].functions as nat) + " functions\n"@,
        ));
        k = k + 1;
    }
    assert(rows@.take(rows.len() as int) =~= rows@);
}

fn push_scope(pieces: &mut Vec<String>, r: &Report)
    ensures
        pieces_view(final(pieces)@) == pieces_view(old(pieces)@) + scope_pieces(*r),
{
    let geography = &r.scope.calibration_geography;
    push_str(pieces, "\nScope\n-----\nPrediction targets:\n");
    push_counts(pieces, &r.scope.prediction_targets);
    push_str(pieces, "h(theta) models:\n");
    push_values(pieces, &r.scope.models.h_theta);
    push_str(pieces, "K(h) models:\n");
    push_values(pieces, &r.scope.models.k_h);
    push_str(pieces, "Sources with territory: ");
    push_number(pieces, geography.source_specifications_with_territory);
    push_str(pieces, "\nFunctions with territory: ");
    push_number(pieces, geography.functions_with_territory);
    push_str(pieces, "\nSources with dataset descriptions: ");
    push_number(pieces, geography.source_specifications_with_dataset);
    push_str(pieces, "\n");
    push_territories(pieces, &geography.territories);
    assert(pieces_view(pieces@) =~= pieces_view(old(pieces)@) + scope_pieces(*r));
}

fn push_labelled(pieces: &mut Vec<String>, label: &str, texts: &Vec<String>)
    ensures
        pieces_view(final(pieces)@) == pieces_view(old(pieces)@) + labelled_lines(label@, texts@),
{
    let mut k: usize = 0;
    while k < texts.len()
        invariant
            k <= texts.len(),
            pieces_view(pieces@) == pieces_view(old(pieces)@) + labelled_lines(label@, texts@.take(k as int)),
        decreases texts.len() - k,
    {
        let mut line = String::from_str(label);
        line.append(texts[k].as_str());
        line.append("\n");
        proof {
            reveal_strlit("\n");
        }
        push(pieces, line);
        assert(labelled_lines(label@, texts@.take(k + 1)) =~= labelled_lines(label@, texts@.take(k as int)).push(
            label@ + texts@[k as int]@ + "\n"@,
        ));
        k = k + 1;
    }
    assert(texts@.take(texts.len() as int) =~= texts@);
}

fn push_note_lines(pieces: &mut Vec<String>, notes: &str)
    ensures
        pieces_view(final(pieces)@) == pieces_view(old(pieces)@) + text_lines(notes@).map_values(|l: Seq<char>| "    "@ + l + "\n"@),
{
    let lines = lines_of(notes);
    let ghost ls = lines@.map_values(|l: String| l@);
    let mut k: usize = 0;
    while k < lines.len()
        invariant
            k <= lines.len(),
            ls == lines@.map_values(|l: String| l@),
            ls == text_lines(notes@),
            pieces_view(pieces@) == pieces_view(old(pieces)@) + ls.take(k as int).map_values(|l: Seq<char>| "    "@ + l + "\n"@),
        decreases lines.len() - k,
    {
        let mut line = String::from_str("    ");
        line.append(lines[k].as_str());
        line.append("\n");
        proof {
            reveal_strlit("    ");
            reveal_strlit("\n");
        }
        push(pieces, line);
        assert(ls.take(k + 1).map_values(|l: Seq<char>| "    "@ + l + "\n"@) =~= ls.take(k as int).map_values(
            |l: Seq<char>| "    "@ + l + "\n"@,
        ).push("    "@ + ls[k as int] + "\n"@));
        k = k + 1;
    }
    assert(ls.take(lines.len() as int) =~= ls);
}

fn push_blocked_function(pieces: &mut Vec<String>, f: &BlockedFunction)
    ensures
        pieces_view(final(pieces)@) == pieces_view(old(pieces)@) + blocked_lines(*f),
{
    let mut first = f.source_identifier.clone();
    first.append(" / ");
    first.append(f.function_name.as_str());
    first.append("\n");
    proof {
        reveal_strlit(" / ");
        reveal_strlit("\n");
    }
    push(pieces, first);
    push_labelled(pieces, "  Warning: ", &f.documentation_warnings);
    push_labelled(pieces, "  Note: ", &f.documentation_notes);
    match &f.scientific_notes {
        Some(notes) => {
            push_str(pieces, "  Source scientific notes:\n");
            push_note_lines(pieces, notes.as_str());
        },
        None => {},
    }
    assert(pieces_view(pieces@) =~= pieces_view(old(pieces)@) + blocked_lines(*f));
}

fn push_blocked(pieces: &mut Vec<String>, r: &Report)
    ensures
        pieces_view(final(pieces)@) == pieces_view(old(pieces)@) + blocked_pieces(*r),
{
    push_str(pieces, "\nBlocked functions\n-----------------\n");
    let ghost opened = pieces_view(pieces@);
    if r.blocked_functions.len() == 0 {
        push_str(pieces, "None\n");
    } else {
        let fs = &r.blocked_functions;
        let mut k: usize = 0;
        while k < fs.len()
            invariant
                k <= fs.len(),
                pieces_view(pieces@) == opened + all_blocked_lines(fs@.take(k as int)),
            decreases fs.len() - k,
        {
            push_blocked_function(pieces, &fs[k]);
            assert(fs@.take(k + 1).drop_last() =~= fs@.take(k as int));
            k = k + 1;
        }
        assert(fs@.take(fs.len() as int) =~= fs@);
        push_str(pieces, "Blocker classification: unavailable from the current schema.\n");
    }
    assert(pieces_view(pieces@) =~= pieces_view(old(pieces)@) + blocked_pieces(*r));
}

/// The pieces joined into one text.
fn join_pieces(pieces: &Vec<String>) -> (r: String)
    ensures
        r@ == joined(pieces_view(pieces@)),
{
    let mut r = String::new();
    let mut k: usize = 0;
    while k < pieces.len()
        invariant
            k <= pieces.len(),
            r@ == joined(pieces_view(pieces@).take(k as int)),
        decreases pieces.len() - k,
    {
        assert(pieces_view(pieces@).take(k + 1).drop_last() =~= pieces_view(pieces@).take(k as int));
        r.append(pieces[k].as_str());
        k = k + 1;
    }
    assert(pieces_view(pieces@).take(pieces.len() as int) =~= pieces_view(pieces@));
    r
}

/// The report as text: its sections in order, each count in decimal and each share as
/// given in `shares`.
pub fn to_text(report: &Report, shares: &Shares) -> (r: String)
    requires
        shares.by_status.len() == report.functions.by_status.len(),
        shares.inputs.len() == report.inputs.len(),
    ensures
        r@ == joined(report_pieces(*report, *shares)),
{
    let mut pieces: Vec<String> = Vec::new();
    push_sources(&mut pieces, report);
    push_functions(&mut pieces, report, shares);
    push_verification(&mut pieces, report, shares);
    push_registry(&mut pieces, report, shares);
    push_io(&mut pieces, report, shares);
    push_scope(&mut pieces, report);
    push_blocked(&mut pieces, report);
    assert(pieces_view(pieces@) =~= report_pieces(*report, *shares));
    join_pieces(&pieces)
}

} // verus!
