//! Semantic documentation assembled from validated specifications.
//!
//! Targets choose their own section ordering and markup; this module describes the
//! information they have available to render.

use vstd::prelude::*;
use vstd::string::*;
use crate::model::{Function, Input, OutputField, Outputs, Parameter, Scope, Source};

verus! {

/// What a target may render about a source.
pub struct SourceDocument<'a> {
    pub summary: &'a str,
    pub reference: Reference<'a>,
    pub territory: Option<&'a str>,
    pub dataset: Option<&'a str>,
}

pub struct Reference<'a> {
    pub citation: &'a str,
    pub doi: Option<Doi<'a>>,
}

pub struct Doi<'a> {
    pub identifier: &'a str,
    pub url: &'a str,
}

/// What a target may render about a function.
pub struct FunctionDocument<'a> {
    pub summary: &'a str,
    pub parameters: &'a [Input],
    pub returns: Returns<'a>,
    pub territory: Option<&'a str>,
    pub models: Models<'a>,
    pub remarks: Remarks<'a>,
    pub notes: &'a [String],
    pub warnings: &'a [String],
}

/// The hydraulic models a function belongs to.
pub struct Models<'a> {
    pub h_theta: Option<&'a str>,
    pub k_h: Option<&'a str>,
}

/// What a function predicts.
pub struct Remarks<'a> {
    pub prediction_target: &'a str,
}

/// The value a function returns.
pub enum Returns<'a> {
    Scalar(&'a OutputField),
    Record { name: &'a str, fields: &'a [OutputField] },
}

/// An optional text seen through its view.
pub open spec fn opt_view(o: Option<String>) -> Option<Seq<char>> {
    match o {
        Some(s) => Some(s@),
        None => None,
    }
}

/// An optional borrowed text seen through its view.
pub open spec fn opt_str_view(o: Option<&str>) -> Option<Seq<char>> {
    match o {
        Some(s) => Some(s@),
        None => None,
    }
}

fn opt_str(o: &Option<String>) -> (r: Option<&str>)
    ensures
        opt_str_view(r) == opt_view(*o),
{
    match o {
        Some(s) => Some(s.as_str()),
        None => None,
    }
}

/// The documentation of a source.
pub fn for_source<'a>(source: &'a Source, scope: &'a Scope) -> (d: SourceDocument<'a>)
    ensures
        d.summary@ == source.summary@,
        d.reference.citation@ == source.citation_apa@,
        match source.doi {
            Some(doi) => d.reference.doi is Some
                && d.reference.doi->0.identifier@ == doi.identifier@
                && d.reference.doi->0.url@ == doi.url@,
            None => d.reference.doi is None,
        },
        opt_str_view(d.territory) == opt_view(scope.territory),
        opt_str_view(d.dataset) == opt_view(scope.dataset),
{
    SourceDocument {
        summary: source.summary.as_str(),
        reference: Reference {
            citation: source.citation_apa.as_str(),
            doi: match &source.doi {
                Some(doi) => Some(Doi { identifier: doi.identifier.as_str(), url: doi.url.as_str() }),
                None => None,
            },
        },
        territory: opt_str(&scope.territory),
        dataset: opt_str(&scope.dataset),
    }
}

/// The documentation of a function.
pub fn for_function<'a>(function: &'a Function) -> (d: FunctionDocument<'a>)
    ensures
        d.summary@ == function.public_api.summary@,
        d.parameters@ == function.inputs@,
        match function.outputs {
            Outputs::Scalar { field } => d.returns == Returns::Scalar(&field),
            Outputs::Record { name, fields } => d.returns matches Returns::Record { name: n, fields: f }
                && n@ == name@ && f@ == fields@,
        },
        opt_str_view(d.territory) == opt_view(function.scope.territory),
        opt_str_view(d.models.h_theta) == opt_view(function.scope.models.h_theta),
        opt_str_view(d.models.k_h) == opt_view(function.scope.models.k_h),
        d.remarks.prediction_target@ == function.scope.prediction_target@,
        d.notes@ == function.documentation.notes@,
        d.warnings@ == function.documentation.warnings@,
{
    FunctionDocument {
        summary: function.public_api.summary.as_str(),
        parameters: function.inputs.as_slice(),
        returns: match &function.outputs {
            Outputs::Scalar { field } => Returns::Scalar(field),
            Outputs::Record { name, fields } => Returns::Record { name: name.as_str(), fields: fields.as_slice() },
        },
        territory: opt_str(&function.scope.territory),
        models: Models { h_theta: opt_str(&function.scope.models.h_theta), k_h: opt_str(&function.scope.models.k_h) },
        remarks: Remarks { prediction_target: function.scope.prediction_target.as_str() },
        notes: function.documentation.notes.as_slice(),
        warnings: function.documentation.warnings.as_slice(),
    }
}

/// The name, description and unit that a documented parameter shows.
pub trait ParameterMetadata {
    spec fn spec_name(&self) -> Seq<char>;

    spec fn spec_description(&self) -> Seq<char>;

    spec fn spec_unit(&self) -> Option<Seq<char>>;

    fn name(&self) -> (r: &str)
        ensures
            r@ == self.spec_name();

    fn description(&self) -> (r: &str)
        ensures
            r@ == self.spec_description();

    fn unit(&self) -> (r: Option<&str>)
        ensures
            opt_str_view(r) == self.spec_unit();
}

impl ParameterMetadata for Parameter {
    open spec fn spec_name(&self) -> Seq<char> {
        self.name@
    }

    open spec fn spec_description(&self) -> Seq<char> {
        self.description@
    }

    open spec fn spec_unit(&self) -> Option<Seq<char>> {
        Some(self.unit@)
    }

    fn name(&self) -> (r: &str) {
        self.name.as_str()
    }

    fn description(&self) -> (r: &str) {
        self.description.as_str()
    }

    fn unit(&self) -> (r: Option<&str>) {
        Some(self.unit.as_str())
    }
}

impl ParameterMetadata for OutputField {
    open spec fn spec_name(&self) -> Seq<char> {
        self.name@
    }

    open spec fn spec_description(&self) -> Seq<char> {
        self.description@
    }

    open spec fn spec_unit(&self) -> Option<Seq<char>> {
        Some(self.unit@)
    }

    fn name(&self) -> (r: &str) {
        self.name.as_str()
    }

    fn description(&self) -> (r: &str) {
        self.description.as_str()
    }

    fn unit(&self) -> (r: Option<&str>) {
        Some(self.unit.as_str())
    }
}

impl ParameterMetadata for Input {
    open spec fn spec_name(&self) -> Seq<char> {
        Input::spec_name(self)
    }

    open spec fn spec_description(&self) -> Seq<char> {
        Input::spec_description(self)
    }

    open spec fn spec_unit(&self) -> Option<Seq<char>> {
        Input::spec_unit(self)
    }

    fn name(&self) -> (r: &str) {
        Input::name(self)
    }

    fn description(&self) -> (r: &str) {
        Input::description(self)
    }

    fn unit(&self) -> (r: Option<&str>) {
        Input::unit(self)
    }
}

/// `description (unit)`, or the description alone when there is no unit.
pub open spec fn spec_parameter_details(description: Seq<char>, unit: Option<Seq<char>>) -> Seq<char> {
    match unit {
        Some(u) => description + seq![' ', '('] + u + seq![')'],
        None => description,
    }
}

/// The description of a parameter followed by its unit in parentheses, if it has one.
pub fn parameter_details<P: ParameterMetadata>(parameter: &P) -> (r: String)
    ensures
        r@ == spec_parameter_details(parameter.spec_description(), parameter.spec_unit()),
{
    let mut r = String::from_str(parameter.description());
    match parameter.unit() {
        Some(unit) => {
            r.append(" (");
            r.append(unit);
            r.append(")");
            proof {
                reveal_strlit(" (");
                reveal_strlit(")");
                assert(" ("@ =~= seq![' ', '(']);
                assert(")"@ =~= seq![')']);
            }
        },
        None => {},
    }
    r
}

/// `name: details`.
pub fn parameter_documentation<P: ParameterMetadata>(parameter: &P) -> (r: String)
    ensures
        r@ == parameter.spec_name() + seq![':', ' ']
            + spec_parameter_details(parameter.spec_description(), parameter.spec_unit()),
{
    let mut r = String::from_str(parameter.name());
    r.append(": ");
    proof {
        reveal_strlit(": ");
        assert(": "@ =~= seq![':', ' ']);
    }
    let details = parameter_details(parameter);
    r.append(details.as_str());
    r
}

} // verus!
