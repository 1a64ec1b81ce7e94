use vstd::prelude::*;
use crate::naming::opt_string_view;

verus! {

/// Why a run stopped.
pub enum EmitError {
    /// A definition that must be placed in a module has no name.
    InvalidDefinitionName,
    /// A computed module path (segments joined by `::`) has an empty segment.
    InvalidDefinitionPath(String),
    /// An array schema has no item schema; carries the definition's type name.
    MissingArrayItem(Option<String>),
    /// A parameter (name, path) matches no scalar type.
    UnknownParameterType(String, String),
    /// A body parameter (name, path) refers to a schema that declares no type.
    UnsupportedParameterDefinition(String, String),
    /// Arrays and maps contain each other without end; carries the type name
    /// of the container where the nesting budget ran out.
    RecursiveContainer(Option<String>),
}

pub enum ErrorModel {
    InvalidDefinitionName,
    InvalidDefinitionPath(Seq<char>),
    MissingArrayItem(Option<Seq<char>>),
    UnknownParameterType(Seq<char>, Seq<char>),
    UnsupportedParameterDefinition(Seq<char>, Seq<char>),
    RecursiveContainer(Option<Seq<char>>),
}

impl View for EmitError {
    type V = ErrorModel;

    open spec fn view(&self) -> ErrorModel {
        match self {
            EmitError::InvalidDefinitionName => ErrorModel::InvalidDefinitionName,
            EmitError::InvalidDefinitionPath(p) => ErrorModel::InvalidDefinitionPath(p@),
            EmitError::MissingArrayItem(n) => ErrorModel::MissingArrayItem(opt_string_view(*n)),
            EmitError::UnknownParameterType(n, p) => ErrorModel::UnknownParameterType(n@, p@),
            EmitError::UnsupportedParameterDefinition(n, p) => ErrorModel::UnsupportedParameterDefinition(
                n@,
                p@,
            ),
            EmitError::RecursiveContainer(n) => ErrorModel::RecursiveContainer(opt_string_view(*n)),
        }
    }
}

} // verus!
