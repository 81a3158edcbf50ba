use droplet_core::convert::{
    as_seq, bool_from_arg, dataset_from_arg, dataset_into_ret, int_from_arg,
    named_datasets_from_arg, string_from_arg, string_pairs_from_arg, strings_from_arg, Arg,
    ArgShape,
};
use droplet_core::engine::{Dataset, DuckEngine};
use droplet_core::error::DropletError;
use droplet_core::registry::Registry;

fn s(v: &str) -> Arg {
    Arg { shape: ArgShape::Str(v.to_string()), debug: format!("String({v:?})") }
}
fn i(n: i64) -> Arg {
    Arg { shape: ArgShape::Int(n), debug: format!("Int({n})") }
}
fn list(items: Vec<Arg>) -> Arg {
    let debug = format!("List([{}])", items.iter().map(|a| a.debug.clone()).collect::<Vec<_>>().join(", "));
    Arg { shape: ArgShape::Items(items), debug }
}
fn float_zero() -> Arg {
    Arg { shape: ArgShape::Other, debug: "Float(0.0)".to_string() }
}
fn bad_arg(e: DropletError) -> String {
    match e {
        DropletError::BadArg(m) => m,
        other => panic!("expected BadArg, got {other:?}"),
    }
}
fn dataset(eng: &mut DuckEngine) -> Dataset {
    eng.register_parquet("p").ok().unwrap().dataset
}

#[test]
fn string_round_trips() {
    assert_eq!(string_from_arg(&s("hi")).unwrap(), "hi");
}

#[test]
fn scalars_convert() {
    assert_eq!(int_from_arg(&i(42)).unwrap(), 42);
    let t = Arg { shape: ArgShape::Bool(true), debug: "Bool(true)".into() };
    assert!(bool_from_arg(&t).unwrap());
}

#[test]
fn wrong_type_is_bad_arg() {
    assert_eq!(bad_arg(string_from_arg(&i(1)).unwrap_err()), "expected str, got Int(1)");
    assert_eq!(bad_arg(int_from_arg(&s("0")).unwrap_err()), "expected int, got String(\"0\")");
    assert_eq!(bad_arg(int_from_arg(&float_zero()).unwrap_err()), "expected int, got Float(0.0)");
    assert_eq!(bad_arg(bool_from_arg(&i(1)).unwrap_err()), "expected bool, got Int(1)");
    assert_eq!(bad_arg(as_seq(&i(1), "list[str]").unwrap_err()), "expected list[str], got Int(1)");
}

#[test]
fn list_of_strings() {
    assert_eq!(strings_from_arg(&list(vec![s("a"), s("b")])).unwrap(), vec!["a".to_string(), "b".to_string()]);
    assert_eq!(bad_arg(strings_from_arg(&list(vec![s("a"), i(2), i(3)])).unwrap_err()), "expected str, got Int(2)");
    assert_eq!(bad_arg(strings_from_arg(&s("a")).unwrap_err()), "expected list[str], got String(\"a\")");
}

#[test]
fn list_of_string_pairs() {
    let ok = list(vec![list(vec![s("total"), s("SUM(x)")])]);
    assert_eq!(string_pairs_from_arg(&ok).unwrap(), vec![("total".to_string(), "SUM(x)".to_string())]);
    let triple = list(vec![list(vec![s("a"), s("b"), s("c")])]);
    assert_eq!(bad_arg(string_pairs_from_arg(&triple).unwrap_err()), "expected a 2-tuple");
    let not_seq = list(vec![s("a")]);
    assert_eq!(bad_arg(string_pairs_from_arg(&not_seq).unwrap_err()), "expected tuple[str, str], got String(\"a\")");
}

#[test]
fn to_rows_unissued_handle_is_bad_handle() {
    let reg: Registry<Dataset> = Registry::new();
    assert!(matches!(dataset_from_arg(&reg, &i(999)), Err(DropletError::BadHandle(999))));
}

#[test]
fn to_rows_negative_handle_is_bad_arg_non_negative() {
    let reg: Registry<Dataset> = Registry::new();
    let m = bad_arg(dataset_from_arg(&reg, &i(-1)).unwrap_err());
    assert!(m.contains("non-negative"));
}

#[test]
fn to_rows_huge_but_valid_i64_handle_is_bad_handle() {
    let reg: Registry<Dataset> = Registry::new();
    assert!(matches!(dataset_from_arg(&reg, &i(1i64 << 62)), Err(DropletError::BadHandle(h)) if h == 1u64 << 62));
}

#[test]
fn to_rows_string_handle_is_bad_arg() {
    let reg: Registry<Dataset> = Registry::new();
    assert!(bad_arg(dataset_from_arg(&reg, &s("0")).unwrap_err()).contains("expected int"));
}

#[test]
fn dataset_round_trips_through_its_handle() {
    let mut eng = DuckEngine::new_in_memory();
    let mut reg: Registry<Dataset> = Registry::new();
    let _first = dataset(&mut eng);
    let ds = dataset(&mut eng);
    let h = dataset_into_ret(&mut reg, ds);
    assert_eq!(h, 0);
    assert_eq!(dataset_from_arg(&reg, &i(h)).unwrap().table(), "ds_1");
}

#[test]
fn named_datasets_resolve_each_handle() {
    let mut eng = DuckEngine::new_in_memory();
    let mut reg: Registry<Dataset> = Registry::new();
    let a = dataset_into_ret(&mut reg, dataset(&mut eng));
    let b = dataset_into_ret(&mut reg, dataset(&mut eng));
    let arg = list(vec![list(vec![s("l"), i(a)]), list(vec![s("r"), i(b)])]);
    let got = named_datasets_from_arg(&reg, &arg).unwrap();
    assert_eq!(got.len(), 2);
    assert_eq!(got[0].0, "l");
    assert_eq!(got[0].1.table(), "ds_0");
    assert_eq!(got[1].0, "r");
    assert_eq!(got[1].1.table(), "ds_1");
    let forged = list(vec![list(vec![s("l"), i(7)])]);
    assert!(matches!(named_datasets_from_arg(&reg, &forged), Err(DropletError::BadHandle(7))));
}

fn tuple(items: Vec<Arg>) -> Arg {
    let debug = format!("Tuple([{}])", items.iter().map(|a| a.debug.clone()).collect::<Vec<_>>().join(", "));
    Arg { shape: ArgShape::Items(items), debug }
}

#[test]
fn dispatch_reports_bad_argument_type() {
    assert!(matches!(string_from_arg(&i(1)), Err(DropletError::BadArg(_))));
}

#[test]
fn to_rows_float_handle_is_bad_arg() {
    let reg: Registry<Dataset> = Registry::new();
    assert!(bad_arg(dataset_from_arg(&reg, &float_zero()).unwrap_err()).contains("expected int"));
}

#[test]
fn to_rows_list_handle_is_bad_arg() {
    let reg: Registry<Dataset> = Registry::new();
    assert!(bad_arg(dataset_from_arg(&reg, &list(vec![i(0)])).unwrap_err()).contains("expected int"));
}

#[test]
fn to_rows_tuple_handle_is_bad_arg() {
    let reg: Registry<Dataset> = Registry::new();
    assert!(bad_arg(dataset_from_arg(&reg, &tuple(vec![i(0)])).unwrap_err()).contains("expected int"));
}

#[test]
fn to_rows_bytes_handle_is_bad_arg() {
    let reg: Registry<Dataset> = Registry::new();
    let bytes = Arg { shape: ArgShape::Other, debug: "Bytes([0, 0, 0, 0, 0, 0, 0, 0])".into() };
    assert!(bad_arg(dataset_from_arg(&reg, &bytes).unwrap_err()).contains("expected int"));
}

#[test]
fn to_rows_2pow63_overflows_to_bigint_is_bad_arg() {
    let reg: Registry<Dataset> = Registry::new();
    let big = Arg { shape: ArgShape::Other, debug: "BigInt(9223372036854775808)".into() };
    assert!(bad_arg(dataset_from_arg(&reg, &big).unwrap_err()).contains("expected int"));
}

#[test]
fn fresh_session_to_rows_zero_is_bad_handle_empty_registry() {
    let reg: Registry<Dataset> = Registry::new();
    assert!(matches!(dataset_from_arg(&reg, &i(0)), Err(DropletError::BadHandle(0))));
}

#[test]
fn scalar_forged_handle_is_bad_handle_before_sql() {
    let reg: Registry<Dataset> = Registry::new();
    assert!(matches!(dataset_from_arg(&reg, &i(31337)), Err(DropletError::BadHandle(31337))));
}

#[test]
fn join_first_handle_forged_is_bad_handle_left_arg() {
    let reg: Registry<Dataset> = Registry::new();
    assert!(matches!(dataset_from_arg(&reg, &i(1)), Err(DropletError::BadHandle(1))));
}

#[test]
fn join_mixed_valid_and_forged_handle_is_bad_handle() {
    let mut eng = DuckEngine::new_in_memory();
    let mut reg: Registry<Dataset> = Registry::new();
    let h = dataset_into_ret(&mut reg, dataset(&mut eng));
    assert!(dataset_from_arg(&reg, &i(h)).is_ok());
    assert!(matches!(dataset_from_arg(&reg, &i(999)), Err(DropletError::BadHandle(999))));
}

#[test]
fn register_int_path_is_bad_arg_not_panic() {
    assert!(bad_arg(string_from_arg(&i(7)).unwrap_err()).contains("expected str"));
}

#[test]
fn group_agg_str_for_by_list_is_bad_arg() {
    assert!(bad_arg(strings_from_arg(&s("region")).unwrap_err()).contains("list[str]"));
}

#[test]
fn group_agg_ints_for_str_list_is_bad_arg() {
    assert!(bad_arg(strings_from_arg(&list(vec![i(1), i(2)])).unwrap_err()).contains("expected str"));
}

#[test]
fn group_agg_three_tuple_metric_is_bad_arg() {
    let metrics = list(vec![tuple(vec![s("t"), s("SUM(amount)"), s("extra")])]);
    assert!(bad_arg(string_pairs_from_arg(&metrics).unwrap_err()).contains("2-tuple"));
}

#[test]
fn group_agg_one_tuple_metric_is_bad_arg() {
    let metrics = list(vec![tuple(vec![s("only")])]);
    assert!(bad_arg(string_pairs_from_arg(&metrics).unwrap_err()).contains("2-tuple"));
}

#[test]
fn local_sql_second_elem_wrong_type_str_not_handle_is_bad_arg() {
    let reg: Registry<Dataset> = Registry::new();
    let arg = list(vec![tuple(vec![s("usage"), s("not_a_handle")])]);
    assert!(bad_arg(named_datasets_from_arg(&reg, &arg).unwrap_err()).contains("expected int"));
}

#[test]
fn local_sql_dataset_list_inner_not_a_tuple_is_bad_arg() {
    let reg: Registry<Dataset> = Registry::new();
    let arg = list(vec![i(0)]);
    assert!(bad_arg(named_datasets_from_arg(&reg, &arg).unwrap_err()).contains("tuple[str, Dataset]"));
}

#[test]
fn local_sql_forged_handle_in_dataset_list_is_bad_handle() {
    let reg: Registry<Dataset> = Registry::new();
    let arg = list(vec![tuple(vec![s("usage"), i(4242)])]);
    assert!(matches!(named_datasets_from_arg(&reg, &arg), Err(DropletError::BadHandle(4242))));
}
