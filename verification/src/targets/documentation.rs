//! Parameter texts shared by the generated docstrings.

use vstd::prelude::*;
use vstd::string::*;
use crate::model::Parameter;

verus! {

/// `description (unit)`.
pub fn parameter_details(parameter: &Parameter) -> (r: String)
    ensures
        r@ == parameter.description@ + " ("@ + parameter.unit@ + ")"@,
{
    let mut r = parameter.description.clone();
    r.append(" (");
    r.append(parameter.unit.as_str());
    r.append(")");
    r
}

/// `name: description (unit)`.
pub fn parameter_documentation(parameter: &Parameter) -> (r: String)
    ensures
        r@ == parameter.name@ + ": "@ + parameter.description@ + " ("@ + parameter.unit@ + ")"@,
{
    let mut r = parameter.name.clone();
    r.append(": ");
    let details = parameter_details(parameter);
    r.append(details.as_str());
    r
}

} // verus!
