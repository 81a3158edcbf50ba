//! Reading one cell of a read-out: which plain kind of value a column type gives.
//!
//! Column types are those of the Arrow columns DuckDB returns; the value itself is read by
//! the caller, which holds the column.
use vstd::prelude::*;

use crate::error::DropletError;

verus! {

/// The type of a read-out column.
#[derive(Debug)]
pub enum ColumnType {
    Boolean,
    Int8,
    Int16,
    Int32,
    Int64,
    UInt8,
    UInt16,
    UInt32,
    UInt64,
    Float32,
    Float64,
    Utf8,
    LargeUtf8,
    /// Any other type, by its debug rendering.
    Other(String),
}

/// The plain kind of value a cell becomes.
#[derive(Debug)]
pub enum CellKind {
    /// SQL `NULL`.
    Null,
    Bool,
    /// A 64-bit signed integer (unsigned 64-bit values are reinterpreted).
    Int,
    /// A 64-bit float (32-bit floats are widened).
    Float,
    Str,
}

/// The kind a cell of type `ty` becomes, or `None` for a type the read-out does not decode.
pub open spec fn kind_of(ty: ColumnType) -> Option<CellKind> {
    match ty {
        ColumnType::Boolean => Some(CellKind::Bool),
        ColumnType::Int8 | ColumnType::Int16 | ColumnType::Int32 | ColumnType::Int64
        | ColumnType::UInt8 | ColumnType::UInt16 | ColumnType::UInt32 | ColumnType::UInt64 => Some(
            CellKind::Int,
        ),
        ColumnType::Float32 | ColumnType::Float64 => Some(CellKind::Float),
        ColumnType::Utf8 | ColumnType::LargeUtf8 => Some(CellKind::Str),
        ColumnType::Other(_) => None,
    }
}

/// The kind of one cell: `Null` for a null cell of any type; otherwise the kind of its
/// column's type, or `UnsupportedType` naming a type the read-out does not decode.
pub fn cell_kind(ty: &ColumnType, is_null: bool) -> (r: Result<CellKind, DropletError>)
    ensures
        is_null ==> r == Ok::<CellKind, DropletError>(CellKind::Null),
        !is_null && kind_of(*ty) is Some ==> r == Ok::<CellKind, DropletError>(kind_of(*ty)->0),
        !is_null && kind_of(*ty) is None ==> (r matches Err(DropletError::UnsupportedType(s))
            && ty matches ColumnType::Other(d) && s@ == d@),
{
    if is_null {
        return Ok(CellKind::Null);
    }
    match ty {
        ColumnType::Boolean => Ok(CellKind::Bool),
        ColumnType::Int8 | ColumnType::Int16 | ColumnType::Int32 | ColumnType::Int64
        | ColumnType::UInt8 | ColumnType::UInt16 | ColumnType::UInt32 | ColumnType::UInt64 => Ok(
            CellKind::Int,
        ),
        ColumnType::Float32 | ColumnType::Float64 => Ok(CellKind::Float),
        ColumnType::Utf8 | ColumnType::LargeUtf8 => Ok(CellKind::Str),
        ColumnType::Other(d) => Err(DropletError::UnsupportedType(d.clone())),
    }
}

} // verus!
