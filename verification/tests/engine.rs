use droplet_core::engine::{cap_batches, DuckEngine, DEFAULT_MAX_RESULT_ROWS};
use droplet_core::error::DropletError;

#[test]
fn register_parquet_returns_a_handle() {
    let mut eng = DuckEngine::new_in_memory();
    let view = eng.register_parquet("/data/sample.parquet").ok().unwrap();
    assert_eq!(view.dataset.table(), "ds_0");
    assert_eq!(
        view.sql,
        "CREATE VIEW ds_0 AS SELECT * FROM read_parquet('/data/sample.parquet')"
    );
}

#[test]
fn views_are_numbered_in_order() {
    let mut eng = DuckEngine::new_in_memory();
    let a = eng.register_parquet("a.parquet").ok().unwrap();
    let b = eng.filter_rows(&a.dataset, "amount > 100").ok().unwrap();
    assert_eq!(a.dataset.table(), "ds_0");
    assert_eq!(b.dataset.table(), "ds_1");
    assert_eq!(b.sql, "CREATE VIEW ds_1 AS SELECT * FROM ds_0 WHERE amount > 100");
}

#[test]
fn view_numbers_reach_two_digits() {
    let mut eng = DuckEngine::new_in_memory();
    let mut last = String::new();
    for _ in 0..11 {
        last = eng.register_parquet("p").ok().unwrap().dataset.table().to_string();
    }
    assert_eq!(last, "ds_10");
}

#[test]
fn group_agg_sums_per_category_sql() {
    let mut eng = DuckEngine::new_in_memory();
    let ds = eng.register_parquet("s.parquet").ok().unwrap().dataset;
    let agg = eng
        .group_agg(&ds, &["category"], &[("total", "CAST(SUM(amount) AS BIGINT)")])
        .ok()
        .unwrap();
    assert_eq!(
        agg.sql,
        "CREATE VIEW ds_1 AS SELECT category, CAST(SUM(amount) AS BIGINT) AS total FROM ds_0 GROUP BY category"
    );
}

#[test]
fn group_agg_with_no_grouping_is_a_grand_total() {
    let mut eng = DuckEngine::new_in_memory();
    let ds = eng.register_parquet("s.parquet").ok().unwrap().dataset;
    let total = eng.group_agg(&ds, &[], &[("total", "SUM(amount)")]).ok().unwrap();
    assert_eq!(total.sql, "CREATE VIEW ds_1 AS SELECT SUM(amount) AS total FROM ds_0");
}

#[test]
fn group_agg_with_two_columns_and_two_metrics() {
    let mut eng = DuckEngine::new_in_memory();
    let ds = eng.register_parquet("s.parquet").ok().unwrap().dataset;
    let agg = eng
        .group_agg(&ds, &["a", "b"], &[("n", "COUNT(*)"), ("t", "SUM(x)")])
        .ok()
        .unwrap();
    assert_eq!(
        agg.sql,
        "CREATE VIEW ds_1 AS SELECT a, b, COUNT(*) AS n, SUM(x) AS t FROM ds_0 GROUP BY a, b"
    );
}

#[test]
fn local_sql_binds_names_as_ctes() {
    let mut eng = DuckEngine::new_in_memory();
    let ds = eng.register_parquet("s.parquet").ok().unwrap().dataset;
    let v = eng
        .local_sql(
            "SELECT category, CAST(SUM(amount) AS BIGINT) AS total FROM usage GROUP BY category",
            &[("usage", &ds)],
        )
        .ok()
        .unwrap();
    assert_eq!(
        v.sql,
        "CREATE VIEW ds_1 AS WITH usage AS (SELECT * FROM ds_0) SELECT category, CAST(SUM(amount) AS BIGINT) AS total FROM usage GROUP BY category"
    );
}

#[test]
fn local_sql_handles_survive_alias_reuse() {
    let mut eng = DuckEngine::new_in_memory();
    let ds = eng.register_parquet("s.parquet").ok().unwrap().dataset;
    let h1 = eng.local_sql("SELECT * FROM u", &[("u", &ds)]).ok().unwrap();
    let filtered = eng.filter_rows(&ds, "amount > 100").ok().unwrap().dataset;
    let h2 = eng.local_sql("SELECT * FROM u", &[("u", &filtered)]).ok().unwrap();
    assert_eq!(h1.sql, "CREATE VIEW ds_1 AS WITH u AS (SELECT * FROM ds_0) SELECT * FROM u");
    assert_eq!(h2.sql, "CREATE VIEW ds_3 AS WITH u AS (SELECT * FROM ds_2) SELECT * FROM u");
}

#[test]
fn local_sql_with_two_names() {
    let mut eng = DuckEngine::new_in_memory();
    let a = eng.register_parquet("a").ok().unwrap().dataset;
    let b = eng.register_parquet("b").ok().unwrap().dataset;
    let v = eng
        .local_sql("SELECT * FROM l JOIN r USING (id)", &[("l", &a), ("r", &b)])
        .ok()
        .unwrap();
    assert_eq!(
        v.sql,
        "CREATE VIEW ds_2 AS WITH l AS (SELECT * FROM ds_0), r AS (SELECT * FROM ds_1) SELECT * FROM l JOIN r USING (id)"
    );
}

#[test]
fn local_sql_without_names_is_verbatim() {
    let mut eng = DuckEngine::new_in_memory();
    let v = eng.local_sql("SELECT 42 AS x", &[]).ok().unwrap();
    assert_eq!(v.sql, "CREATE VIEW ds_0 AS SELECT 42 AS x");
}

#[test]
fn smuggled_second_statement_is_bad_arg_and_uses_up_the_name() {
    let mut eng = DuckEngine::new_in_memory();
    let err = eng
        .local_sql("SELECT 1; COPY (SELECT 1) TO '/tmp/x'", &[])
        .err()
        .unwrap();
    match err {
        DropletError::BadArg(m) => assert_eq!(
            m,
            "SQL contains more than one statement; only a single statement is allowed"
        ),
        _ => panic!("expected BadArg"),
    }
    let next = eng.register_parquet("p").ok().unwrap();
    assert_eq!(next.dataset.table(), "ds_1");
}

#[test]
fn smuggled_statement_in_filter_predicate_is_refused() {
    let mut eng = DuckEngine::new_in_memory();
    let ds = eng.register_parquet("p").ok().unwrap().dataset;
    assert!(eng.filter_rows(&ds, "1=1; DROP TABLE t").is_err());
}

#[test]
fn result_cap_is_configurable() {
    let mut eng = DuckEngine::new_in_memory();
    assert_eq!(eng.max_result_rows(), DEFAULT_MAX_RESULT_ROWS);
    eng.set_max_result_rows(3);
    assert_eq!(eng.max_result_rows(), 3);
}

#[test]
fn to_rows_query_limits_to_the_cap() {
    let mut eng = DuckEngine::new_in_memory();
    let ds = eng.register_parquet("p").ok().unwrap().dataset;
    assert_eq!(eng.to_rows_query(&ds), "SELECT * FROM ds_0 LIMIT 1000");
    eng.set_max_result_rows(2);
    assert_eq!(eng.to_rows_query(&ds), "SELECT * FROM ds_0 LIMIT 2");
}

#[test]
fn scalar_query_casts_to_bigint() {
    let mut eng = DuckEngine::new_in_memory();
    let ds = eng.register_parquet("p").ok().unwrap().dataset;
    assert_eq!(
        eng.scalar_query(&ds, "SUM(amount)"),
        "SELECT CAST(SUM(amount) AS BIGINT) FROM ds_0 LIMIT 1"
    );
}

#[test]
fn setup_sql_disables_network_filesystems() {
    assert_eq!(
        DuckEngine::setup_sql(),
        "SET autoinstall_known_extensions=false; SET autoload_known_extensions=false; SET disabled_filesystems='HTTPFileSystem,S3FileSystem';"
    );
}

#[test]
fn cap_batches_slices_the_boundary_batch() {
    assert_eq!(cap_batches(&[400, 400, 400], 1000), vec![400, 400, 200]);
    assert_eq!(cap_batches(&[5], 1000), vec![5]);
    assert_eq!(cap_batches(&[5000], 1000), vec![1000]);
    assert_eq!(cap_batches(&[2, 2, 2], 4), vec![2, 2]);
    assert_eq!(cap_batches(&[3, 3], 0), Vec::<usize>::new());
    assert_eq!(cap_batches(&[], 10), Vec::<usize>::new());
}

#[test]
fn cloned_dataset_names_the_same_view() {
    let mut eng = DuckEngine::new_in_memory();
    let ds = eng.register_parquet("p").ok().unwrap().dataset;
    assert_eq!(ds.clone().table(), "ds_0");
}

#[test]
fn to_rows_clamps_to_the_max() {
    let takes = cap_batches(&[2048, 2048, 904], DEFAULT_MAX_RESULT_ROWS);
    assert_eq!(takes.iter().sum::<usize>(), DEFAULT_MAX_RESULT_ROWS);
    assert_eq!(takes, vec![1000]);
}

#[test]
fn to_rows_returns_every_row_under_the_cap() {
    let takes = cap_batches(&[5], DEFAULT_MAX_RESULT_ROWS);
    assert_eq!(takes.iter().sum::<usize>(), 5);
}

#[test]
fn to_rows_values_respects_the_cap() {
    assert_eq!(cap_batches(&[5], 2).iter().sum::<usize>(), 2);
}
