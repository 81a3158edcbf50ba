use droplet_core::error::DropletError;
use droplet_core::source::{LoadRequest, LocalParquetSource};
use std::path::PathBuf;

#[test]
fn file_name_appends_parquet() {
    let req = LoadRequest { dataset: "sales".into() };
    assert_eq!(LocalParquetSource::file_name(&req), "sales.parquet");
}

#[test]
fn candidate_is_under_the_base() {
    let src = LocalParquetSource::new(PathBuf::from("/tmp/droplet-x"));
    let req = LoadRequest { dataset: "orders".into() };
    assert_eq!(src.candidate(&req), PathBuf::from("/tmp/droplet-x/orders.parquet"));
}

#[test]
fn local_source_resolves_existing_parquet() {
    let req = LoadRequest { dataset: "sales".into() };
    let p = PathBuf::from("/d/sales.parquet");
    assert_eq!(LocalParquetSource::resolve(&req, p.clone(), true).ok().unwrap(), p);
    let missing = LoadRequest { dataset: "nope".into() };
    match LocalParquetSource::resolve(&missing, PathBuf::from("/d/nope.parquet"), false) {
        Err(DropletError::NotFound(d)) => assert_eq!(d, "nope"),
        other => panic!("expected NotFound, got {other:?}"),
    }
}
