use droplet_core::cell::{cell_kind, CellKind, ColumnType};
use droplet_core::error::DropletError;

#[test]
fn null_cells_are_null_whatever_the_type() {
    assert!(matches!(cell_kind(&ColumnType::Int64, true), Ok(CellKind::Null)));
    assert!(matches!(cell_kind(&ColumnType::Other("Decimal128(38, 2)".into()), true), Ok(CellKind::Null)));
}

#[test]
fn column_types_map_to_kinds() {
    assert!(matches!(cell_kind(&ColumnType::Boolean, false), Ok(CellKind::Bool)));
    for t in [ColumnType::Int8, ColumnType::Int16, ColumnType::Int32, ColumnType::Int64, ColumnType::UInt8, ColumnType::UInt16, ColumnType::UInt32, ColumnType::UInt64] {
        assert!(matches!(cell_kind(&t, false), Ok(CellKind::Int)));
    }
    assert!(matches!(cell_kind(&ColumnType::Float32, false), Ok(CellKind::Float)));
    assert!(matches!(cell_kind(&ColumnType::Float64, false), Ok(CellKind::Float)));
    assert!(matches!(cell_kind(&ColumnType::Utf8, false), Ok(CellKind::Str)));
    assert!(matches!(cell_kind(&ColumnType::LargeUtf8, false), Ok(CellKind::Str)));
}

#[test]
fn unknown_types_are_unsupported() {
    match cell_kind(&ColumnType::Other("Decimal128(38, 2)".into()), false) {
        Err(DropletError::UnsupportedType(s)) => assert_eq!(s, "Decimal128(38, 2)"),
        other => panic!("expected UnsupportedType, got {other:?}"),
    }
}
