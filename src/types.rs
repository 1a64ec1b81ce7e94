use vstd::prelude::*;

verus! {

/// The primitive kind of a schema node.
#[derive(Clone, Copy, Debug, PartialEq, Eq, Structural)]
pub enum DataType {
    Integer,
    Number,
    Boolean,
    String,
    Array,
    Object,
}

/// The format that refines a schema node's primitive kind.
#[derive(Clone, Copy, Debug, PartialEq, Eq, Structural)]
pub enum DataTypeFormat {
    Int32,
    Int64,
    Float,
    Double,
    Byte,
    Binary,
    Date,
    DateTime,
    Password,
}

/// The built-in scalar type that a (format, kind) pair maps to, if any.
/// The format wins over the kind; arrays, objects and untyped nodes have none.
pub open spec fn unit_type(format: Option<DataTypeFormat>, type_: Option<DataType>) -> Option<Seq<char>> {
    match format {
        Some(DataTypeFormat::Int32) => Some("i32"@),
        Some(DataTypeFormat::Int64) => Some("i64"@),
        Some(DataTypeFormat::Float) => Some("f32"@),
        Some(DataTypeFormat::Double) => Some("f64"@),
        _ => match type_ {
            Some(DataType::Integer) => Some("i64"@),
            Some(DataType::Number) => Some("f64"@),
            Some(DataType::Boolean) => Some("bool"@),
            Some(DataType::String) => Some("String"@),
            _ => None,
        },
    }
}

pub open spec fn opt_str_view(o: Option<&'static str>) -> Option<Seq<char>> {
    match o {
        Some(s) => Some(s@),
        None => None,
    }
}

/// Checks if the given type/format matches a known Rust type and returns it.
pub fn matching_unit_type(format: Option<DataTypeFormat>, type_: Option<DataType>) -> (r: Option<&'static str>)
    ensures
        opt_str_view(r) == unit_type(format, type_),
{
    match format {
        Some(DataTypeFormat::Int32) => Some("i32"),
        Some(DataTypeFormat::Int64) => Some("i64"),
        Some(DataTypeFormat::Float) => Some("f32"),
        Some(DataTypeFormat::Double) => Some("f64"),
        _ => match type_ {
            Some(DataType::Integer) => Some("i64"),
            Some(DataType::Number) => Some("f64"),
            Some(DataType::Boolean) => Some("bool"),
            Some(DataType::String) => Some("String"),
            _ => None,
        },
    }
}

} // verus!
