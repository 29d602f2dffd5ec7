//! What a request carries and a response brings back.
use bytes::Bytes;
use vstd::prelude::*;
use crate::media_type::MediaType;
use crate::octets::octets;

verus! {

/// Where a simple parameter goes.
#[derive(Debug, Clone)]
pub enum ParameterType {
    Query,
    Body,
}

/// A named value or a named file.
#[derive(Debug)]
pub enum Parameter {
    /// A name and a value, in the query or in the body. They are held as they
    /// are, and encoded where they are written.
    SimpleParameter { name: String, value: String, param_type: ParameterType },
    /// A file with its media type.
    ComplexParameter { name: String, mime_type: MediaType, content: Bytes },
}

/// What a [`Parameter`] holds.
pub enum ParameterView {
    Simple { name: Seq<char>, value: Seq<char>, param_type: ParameterType },
    Complex { name: Seq<char>, mime_type: Seq<char>, content: Seq<u8> },
}

impl View for Parameter {
    type V = ParameterView;

    open spec fn view(&self) -> ParameterView {
        match self {
            Parameter::SimpleParameter { name, value, param_type } => ParameterView::Simple {
                name: name@,
                value: value@,
                param_type: *param_type,
            },
            Parameter::ComplexParameter { name, mime_type, content } => ParameterView::Complex {
                name: name@,
                mime_type: mime_type@,
                content: octets(*content),
            },
        }
    }
}

/// What a list of parameters holds.
pub open spec fn parameter_views(parameters: Seq<Parameter>) -> Seq<ParameterView> {
    parameters.map_values(|p: Parameter| p@)
}

/// One more parameter, one more view.
pub proof fn lemma_views_push(parameters: Seq<Parameter>, parameter: Parameter)
    ensures
        parameter_views(parameters.push(parameter)) == parameter_views(parameters).push(parameter@),
{
    assert(parameter_views(parameters.push(parameter)) =~= parameter_views(parameters).push(parameter@));
}

} // verus!
