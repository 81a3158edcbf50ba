//! The local analyze engine's bookkeeping: naming dataset views, composing the SQL that
//! defines them, refusing composed SQL that holds a second statement, and capping read-outs.
//!
//! The DuckDB connection itself is held by the caller, which runs each statement returned
//! here; nothing in this module touches the connection.
use vstd::prelude::*;
use vstd::string::StringSliceAdditionalSpecFns;
use vstd::utf8::encode_utf8;

use crate::error::DropletError;
use crate::statement::{is_single_statement, single_statement};
use crate::text::{decimal, decimal_string, join, push_decimal, str_views};

verus! {

/// The default cap on how many rows one read-out may move out of the engine.
pub const DEFAULT_MAX_RESULT_ROWS: usize = 1000;

/// An opaque handle to a view inside the engine; it names the view and holds no rows.
#[derive(Debug)]
pub struct Dataset {
    table: String,
}

impl Dataset {
    /// The name of the view this handle resolves to, e.g. `ds_0`.
    pub closed spec fn name(&self) -> Seq<char> {
        self.table@
    }

    /// The name of the view this handle resolves to.
    pub fn table(&self) -> (r: &str)
        ensures
            r@ == self.name(),
    {
        self.table.as_str()
    }
}

impl Clone for Dataset {
    fn clone(&self) -> (r: Self)
        ensures
            r.name() == self.name(),
    {
        Dataset { table: self.table.clone() }
    }
}

/// A view the engine has named and the statement that defines it; the dataset exists once
/// the caller has run `sql` on the connection.
#[derive(Debug)]
pub struct PendingView {
    pub dataset: Dataset,
    pub sql: String,
}

/// The name of the `n`-th view an engine mints.
pub open spec fn view_name(n: nat) -> Seq<char> {
    "ds_"@ + decimal(n)
}

/// The statement that defines view `table` as `select`.
pub open spec fn create_view_sql(table: Seq<char>, select: Seq<char>) -> Seq<char> {
    "CREATE VIEW "@ + table + " AS "@ + select
}

/// The message of the error for composed SQL that holds more than one statement.
pub open spec fn multi_statement_message() -> Seq<char> {
    "SQL contains more than one statement; only a single statement is allowed"@
}

/// What defining the `n`-th view as `select` yields: the view and its statement when the
/// SELECT text is a single statement (so is then the composed statement, see
/// `law_guard_judges_the_select`), else `BadArg` with the multi-statement message.
pub open spec fn view_outcome(r: Result<PendingView, DropletError>, n: nat, select: Seq<char>) -> bool {
    let table = view_name(n);
    let sql = create_view_sql(table, select);
    if single_statement(encode_utf8(select)) {
        r matches Ok(p) && p.dataset.name() == table && p.sql@ == sql
    } else {
        r matches Err(DropletError::BadArg(m)) && m@ == multi_statement_message()
    }
}

/// The SELECT over a local parquet file.
pub open spec fn parquet_select(path: Seq<char>) -> Seq<char> {
    "SELECT * FROM read_parquet('"@ + path + "')"@
}

/// The SELECT that keeps the rows of `table` that match `predicate`.
pub open spec fn filter_select(table: Seq<char>, predicate: Seq<char>) -> Seq<char> {
    "SELECT * FROM "@ + table + " WHERE "@ + predicate
}

/// A metric column: the expression named by its alias.
pub open spec fn metric_column(metric: (&str, &str)) -> Seq<char> {
    metric.1@ + " AS "@ + metric.0@
}

/// The selected columns of a grouping: the grouping columns, then each metric.
pub open spec fn group_columns(by: Seq<&str>, metrics: Seq<(&str, &str)>) -> Seq<Seq<char>> {
    str_views(by) + metrics.map_values(|m: (&str, &str)| metric_column(m))
}

/// The SELECT of a grouping; with no grouping columns, a grand total with no `GROUP BY`.
pub open spec fn group_select(table: Seq<char>, by: Seq<&str>, metrics: Seq<(&str, &str)>) -> Seq<char> {
    let cols = join(group_columns(by, metrics), ", "@);
    if by.len() == 0 {
        "SELECT "@ + cols + " FROM "@ + table
    } else {
        "SELECT "@ + cols + " FROM "@ + table + " GROUP BY "@ + join(str_views(by), ", "@)
    }
}

/// The SELECT of a grouping lists every grouping column and then every metric as
/// `expression AS alias`, all separated by `, `, whatever the number of grouping columns, over
/// the dataset's view; it groups by the grouping columns when there are any and is a grand
/// total over all rows when there are none.
pub proof fn law_group_select_lists_every_column(table: Seq<char>, by: Seq<&str>, metrics: Seq<(&str, &str)>)
    ensures
        group_select(table, by, metrics) == "SELECT "@ + join(
            Seq::new(by.len(), |i: int| by[i]@) + Seq::new(
                metrics.len(),
                |i: int| metrics[i].1@ + " AS "@ + metrics[i].0@,
            ),
            ", "@,
        ) + " FROM "@ + table + (if by.len() == 0 {
            Seq::<char>::empty()
        } else {
            " GROUP BY "@ + join(Seq::new(by.len(), |i: int| by[i]@), ", "@)
        }),
{
    let bys = Seq::new(by.len(), |i: int| by[i]@);
    let ms = Seq::new(metrics.len(), |i: int| metrics[i].1@ + " AS "@ + metrics[i].0@);
    assert(str_views(by) == bys);
    assert(metrics.map_values(|m: (&str, &str)| metric_column(m)) == ms);
    assert(group_columns(by, metrics) == bys + ms);
    if by.len() == 0 {
        assert(group_select(table, by, metrics) == "SELECT "@ + join(bys + ms, ", "@) + " FROM "@ + table);
        assert("SELECT "@ + join(bys + ms, ", "@) + " FROM "@ + table + Seq::<char>::empty() == "SELECT "@ + join(bys + ms, ", "@) + " FROM "@ + table);
    }
}

/// A common table expression that binds `alias` to every row of the dataset's view.
pub open spec fn cte_binding(binding: (&str, &Dataset)) -> Seq<char> {
    binding.0@ + " AS (SELECT * FROM "@ + binding.1.name() + ")"@
}

/// Arbitrary SQL over named datasets: each name bound as a common table expression, so the
/// resulting view refers only to the datasets' own views.
pub open spec fn named_select(sql: Seq<char>, datasets: Seq<(&str, &Dataset)>) -> Seq<char> {
    if datasets.len() == 0 {
        sql
    } else {
        "WITH "@ + join(datasets.map_values(|d: (&str, &Dataset)| cte_binding(d)), ", "@) + " "@
            + sql
    }
}

/// Arbitrary SQL over named datasets is the SQL itself when no dataset is named; else
/// `WITH a1 AS (SELECT * FROM v1), a2 AS (...) SQL`, binding every name to its dataset's
/// view, in order, separated by `, `.
pub proof fn law_named_select_binds_every_name(sql: Seq<char>, datasets: Seq<(&str, &Dataset)>)
    ensures
        named_select(sql, datasets) == if datasets.len() == 0 {
            sql
        } else {
            "WITH "@ + join(
                Seq::new(
                    datasets.len(),
                    |i: int| datasets[i].0@ + " AS (SELECT * FROM "@ + datasets[i].1.name() + ")"@,
                ),
                ", "@,
            ) + " "@ + sql
        },
{
    let b = Seq::new(
        datasets.len(),
        |i: int| datasets[i].0@ + " AS (SELECT * FROM "@ + datasets[i].1.name() + ")"@,
    );
    assert(datasets.map_values(|d: (&str, &Dataset)| cte_binding(d)) == b);
}

/// Defining view number `n` over a SELECT names it `ds_n` and composes
/// `CREATE VIEW ds_n AS SELECT...` exactly when the SELECT is one statement; otherwise the
/// definition is refused with the multi-statement message.
pub proof fn law_view_is_named_and_composed(r: Result<PendingView, DropletError>, n: nat, select: Seq<char>)
    requires
        view_outcome(r, n, select),
    ensures
        single_statement(encode_utf8(select)) ==> (r is Ok && r->Ok_0.dataset.name() == "ds_"@
            + decimal(n) && r->Ok_0.sql@ == "CREATE VIEW ds_"@ + decimal(n) + " AS "@ + select),
        !single_statement(encode_utf8(select)) ==> (r matches Err(DropletError::BadArg(m)) && m@
            == "SQL contains more than one statement; only a single statement is allowed"@),
{
    reveal_strlit("CREATE VIEW ");
    reveal_strlit("ds_");
    reveal_strlit("CREATE VIEW ds_");
    assert("CREATE VIEW "@ + "ds_"@ == "CREATE VIEW ds_"@);
    assert("CREATE VIEW "@ + ("ds_"@ + decimal(n)) + " AS "@ + select == "CREATE VIEW ds_"@ + decimal(n) + " AS "@ + select);
}

/// The query of a capped read-out: at most `cap` rows of `table`.
pub open spec fn read_out_sql(table: Seq<char>, cap: nat) -> Seq<char> {
    "SELECT * FROM "@ + table + " LIMIT "@ + decimal(cap)
}

/// The query of one value: `expr` over `table`, cast to BIGINT, first row only.
pub open spec fn scalar_sql(table: Seq<char>, expr: Seq<char>) -> Seq<char> {
    "SELECT CAST("@ + expr + " AS BIGINT) FROM "@ + table + " LIMIT 1"@
}

/// The statements that lock a fresh engine away from the network: no automatic install or
/// load of extensions, and the HTTP and S3 filesystems disabled.
pub open spec fn setup_sql() -> Seq<char> {
    "SET autoinstall_known_extensions=false; SET autoload_known_extensions=false; SET disabled_filesystems='HTTPFileSystem,S3FileSystem';"@
}

/// The sum of a sequence of row counts.
pub open spec fn total(rows: Seq<usize>) -> nat
    decreases rows.len(),
{
    if rows.len() == 0 {
        0
    } else {
        rows[0] as nat + total(rows.drop_first())
    }
}

/// How many rows to keep of each batch so that at most `max` rows are kept in all: whole
/// batches while they fit, part of the batch where the cap is reached, and no batch after it.
pub open spec fn capped_takes(rows: Seq<usize>, max: nat) -> Seq<usize>
    decreases rows.len(),
{
    if rows.len() == 0 || max == 0 {
        Seq::empty()
    } else {
        let take: nat = if max < rows[0] { max } else { rows[0] as nat };
        seq![take as usize] + capped_takes(rows.drop_first(), (max - take) as nat)
    }
}

/// Views are never named twice: different view numbers give different names.
pub proof fn law_view_names_distinct(n: nat, m: nat)
    requires
        n != m,
    ensures
        view_name(n) != view_name(m),
{
    if view_name(n) == view_name(m) {
        let p = "ds_"@;
        assert(view_name(n).skip(p.len() as int) == decimal(n));
        assert(view_name(m).skip(p.len() as int) == decimal(m));
        crate::text::lemma_decimal_injective(n, m);
    }
}

proof fn lemma_capped_takes(rows: Seq<usize>, max: nat)
    ensures
        total(capped_takes(rows, max)) == if max < total(rows) { max } else { total(rows) },
        capped_takes(rows, max).len() <= rows.len(),
        forall|i: int|
            0 <= i < capped_takes(rows, max).len() ==> #[trigger] capped_takes(rows, max)[i]
                <= rows[i],
    decreases rows.len(),
{
    if rows.len() == 0 || max == 0 {
    } else {
        let take: nat = if max < rows[0] { max } else { rows[0] as nat };
        let rest = capped_takes(rows.drop_first(), (max - take) as nat);
        lemma_capped_takes(rows.drop_first(), (max - take) as nat);
        let c = capped_takes(rows, max);
        assert(c == seq![take as usize] + rest);
        assert(c.drop_first() == rest);
        assert forall|i: int| 0 <= i < c.len() implies #[trigger] c[i] <= rows[i] by {
            if i > 0 {
                assert(c[i] == rest[i - 1]);
                assert(rows.drop_first()[i - 1] == rows[i]);
            }
        }
    }
}

/// A read-out never carries more rows than the cap, and carries every row when the batches
/// hold no more than the cap: the kept rows total the smaller of the cap and all rows.
pub proof fn law_read_out_capped(rows: Seq<usize>, max: nat)
    ensures
        total(capped_takes(rows, max)) <= max,
        total(capped_takes(rows, max)) <= total(rows),
        total(rows) <= max ==> total(capped_takes(rows, max)) == total(rows),
{
    lemma_capped_takes(rows, max);
}

/// A view name is never used twice over an engine's history: the name the next view gets is
/// none of the names given to earlier views, including views whose statement was refused.
pub proof fn law_next_view_name_is_fresh(e: &DuckEngine)
    requires
        e.minted_below(),
    ensures
        !e.named_views().contains(view_name(e.next_view() as nat)),
{
    if e.named_views().contains(view_name(e.next_view() as nat)) {
        let k = choose|k: nat| e.minted().contains(k) && view_name(k) == view_name(e.next_view() as nat);
        law_view_names_distinct(k, e.next_view() as nat);
    }
}

/// A read-out keeps rows from the front: each batch in turn gives all its rows while they
/// fit under the cap, the batch where the cap is reached gives only what is left of it, and
/// no batch after that gives any.
pub proof fn law_read_out_keeps_leading_rows(rows: Seq<usize>, max: nat)
    ensures
        capped_takes(rows, max).len() <= rows.len(),
        forall|k: int|
            0 <= k < capped_takes(rows, max).len() ==> total(#[trigger] rows.take(k)) < max,
        forall|k: int|
            0 <= k < capped_takes(rows, max).len() ==> #[trigger] capped_takes(
                rows,
                max,
            )[k] == (if max - total(rows.take(k)) < rows[k] {
                (max - total(rows.take(k))) as int
            } else {
                rows[k] as int
            }),
        capped_takes(rows, max).len() < rows.len() ==> total(
            rows.take(capped_takes(rows, max).len() as int),
        ) >= max,
    decreases rows.len(),
{
    let c = capped_takes(rows, max);
    assert(rows.take(0) == Seq::<usize>::empty());
    if rows.len() == 0 || max == 0 {
        assert(c.len() == 0);
    } else {
        let take: nat = if max < rows[0] { max } else { rows[0] as nat };
        let rest_rows = rows.drop_first();
        let rest = capped_takes(rest_rows, (max - take) as nat);
        law_read_out_keeps_leading_rows(rest_rows, (max - take) as nat);
        assert(c == seq![take as usize] + rest);
        assert forall|k: int| 1 <= k <= rows.len() implies total(#[trigger] rows.take(k)) == rows[0]
            + total(rest_rows.take(k - 1)) by {
            assert(rows.take(k)[0] == rows[0]);
            assert(rows.take(k).drop_first() == rest_rows.take(k - 1));
        }
        assert forall|k: int|
            0 <= k < c.len() implies total(#[trigger] rows.take(k)) < max && c[k] == (if max - total(
                rows.take(k),
            ) < rows[k] {
                (max - total(rows.take(k))) as int
            } else {
                rows[k] as int
            }) by {
            if k > 0 {
                assert(c[k] == rest[k - 1]);
                assert(rest_rows[k - 1] == rows[k]);
                assert(total(rows.take(k)) == rows[0] + total(rest_rows.take(k - 1)));
                if take < rows[0] {
                    assert(rest.len() == 0);
                }
                assert(take == rows[0]);
                assert(total(rest_rows.take(k - 1)) < (max - take) as nat);
                assert(rest[k - 1] == (if (max - take) as nat - total(rest_rows.take(k - 1)) < rest_rows[k - 1] {
                    ((max - take) as nat - total(rest_rows.take(k - 1))) as int
                } else {
                    rest_rows[k - 1] as int
                }));
            } else {
                assert(total(rows.take(0)) == 0) by {
                    assert(rows.take(0) =~= Seq::<usize>::empty());
                }
                assert(c[0] == take as usize);
            }
        }
        if c.len() < rows.len() {
            let n = c.len() as int;
            if n == 1 {
                assert(total(rows.take(1)) == rows[0] + total(rest_rows.take(0)));
                assert(rest_rows.take(0) == Seq::<usize>::empty());
                if take == rows[0] as nat {
                    assert(rest.len() == 0);
                    assert(rest.len() < rest_rows.len() ==> total(rest_rows.take(0)) >= max - take);
                }
            } else {
                assert(total(rows.take(n)) == rows[0] + total(rest_rows.take(n - 1)));
                if take < rows[0] {
                    assert(rest.len() == 0);
                }
            }
        }
    }
}

/// A character that is ASCII and, as a byte, plain (see `plain_byte`).
pub open spec fn plain_char(c: char) -> bool {
    '\0' <= c <= '\u{7f}' && c != '-' && c != '/' && c != '\'' && c != '"' && c != ';'
}

proof fn lemma_plain_chars_encode(cs: Seq<char>)
    requires
        forall|k: int| 0 <= k < cs.len() ==> plain_char(#[trigger] cs[k]),
    ensures
        forall|k: int| 0 <= k < encode_utf8(cs).len() ==> crate::statement::plain_byte(#[trigger] encode_utf8(cs)[k]),
{
    assert forall|k: int| 0 <= k < cs.len() implies '\0' <= #[trigger] cs[k] <= '\u{7f}' by {
        assert(plain_char(cs[k]));
    }
    assert(vstd::utf8::is_ascii_chars(cs));
    vstd::utf8::is_ascii_chars_encode_utf8(cs);
    assert forall|k: int| 0 <= k < encode_utf8(cs).len() implies crate::statement::plain_byte(#[trigger] encode_utf8(cs)[k]) by {
        assert(cs[k] as u8 == encode_utf8(cs)[k]);
        assert(plain_char(cs[k]));
    }
}

/// Whether the engine accepts a view depends only on the SELECT text it is given: the
/// statement it composes is one statement exactly when the SELECT is.
pub proof fn law_guard_judges_the_select(n: nat, select: Seq<char>)
    ensures
        single_statement(encode_utf8(create_view_sql(view_name(n), select))) == single_statement(
            encode_utf8(select),
        ),
{
    let prefix = "CREATE VIEW "@ + ("ds_"@ + decimal(n)) + " AS "@;
    assert(create_view_sql(view_name(n), select) == prefix + select);
    reveal_strlit("CREATE VIEW ");
    reveal_strlit("ds_");
    reveal_strlit(" AS ");
    crate::text::lemma_decimal_digits(n);
    assert forall|k: int| 0 <= k < prefix.len() implies plain_char(#[trigger] prefix[k]) by {
        let a = "CREATE VIEW "@;
        let b = "ds_"@;
        let d = decimal(n);
        if k < a.len() {
            assert(prefix[k] == a[k]);
        } else if k < a.len() + b.len() {
            assert(prefix[k] == b[k - a.len()]);
        } else if k < a.len() + b.len() + d.len() {
            assert(prefix[k] == d[k - a.len() - b.len()]);
            assert(crate::text::is_digit_char(d[k - a.len() - b.len()]));
        } else {
            assert(prefix[k] == " AS "@[k - a.len() - b.len() - d.len()]);
        }
    }
    lemma_plain_chars_encode(prefix);
    crate::text::lemma_encode_concat(prefix, select);
    crate::statement::law_plain_prefix_keeps_verdict(encode_utf8(prefix), encode_utf8(select));
}

/// The bookkeeping of one analyze engine: the number of the next view it names and the cap
/// on rows per read-out.
pub struct DuckEngine {
    next_id: u64,
    max_result_rows: usize,
    /// The numbers of every view named so far, including views whose statement was refused.
    minted: Ghost<Set<nat>>,
}

impl DuckEngine {
    /// The number in the name of the next view.
    pub closed spec fn next_view(&self) -> u64 {
        self.next_id
    }

    /// The numbers of every view this engine has named over its whole history.
    pub closed spec fn minted(&self) -> Set<nat> {
        self.minted@
    }

    /// The names of every view this engine has named over its whole history.
    pub open spec fn named_views(&self) -> Set<Seq<char>> {
        self.minted().map(|k: nat| view_name(k))
    }

    /// Every view number used so far is below the next one.
    pub open spec fn minted_below(&self) -> bool {
        forall|k: nat| self.minted().contains(k) ==> k < self.next_view()
    }

    /// Every view number used so far is below the counter.
    #[verifier::type_invariant]
    closed spec fn wf(&self) -> bool {
        forall|k: nat| self.minted@.contains(k) ==> k < self.next_id
    }

    /// The cap on rows per read-out.
    pub closed spec fn row_cap(&self) -> usize {
        self.max_result_rows
    }

    /// A fresh engine: the first view is `ds_0`, and the cap is the default.
    pub fn new_in_memory() -> (r: Self)
        ensures
            r.next_view() == 0,
            r.row_cap() == DEFAULT_MAX_RESULT_ROWS,
            r.minted() == Set::<nat>::empty(),
            r.minted_below(),
    {
        DuckEngine { next_id: 0, max_result_rows: DEFAULT_MAX_RESULT_ROWS, minted: Ghost(Set::empty()) }
    }

    /// The number in the name of the next view; minting a view needs it below `u64::MAX`.
    pub fn next_view_number(&self) -> (r: u64)
        ensures
            r == self.next_view(),
    {
        self.next_id
    }

    /// The statements a fresh connection runs before any other.
    pub fn setup_sql() -> (r: &'static str)
        ensures
            r@ == setup_sql(),
    {
        "SET autoinstall_known_extensions=false; SET autoload_known_extensions=false; SET disabled_filesystems='HTTPFileSystem,S3FileSystem';"
    }

    /// The current cap on rows per read-out.
    pub fn max_result_rows(&self) -> (r: usize)
        ensures
            r == self.row_cap(),
    {
        self.max_result_rows
    }

    /// Set the cap on rows per read-out.
    pub fn set_max_result_rows(&mut self, max_result_rows: usize)
        ensures
            final(self).row_cap() == max_result_rows,
            final(self).next_view() == old(self).next_view(),
            final(self).minted() == old(self).minted(),
            final(self).minted_below(),
    {
        proof {
            use_type_invariant(&*self);
        }
        self.max_result_rows = max_result_rows;
    }

    /// Name the next view and compose its statement over `select_sql`. The name is used up
    /// whether or not the statement is accepted.
    fn new_view(&mut self, select_sql: &str) -> (r: Result<PendingView, DropletError>)
        requires
            old(self).next_view() < u64::MAX,
        ensures
            final(self).next_view() == old(self).next_view() + 1,
            final(self).row_cap() == old(self).row_cap(),
            !old(self).named_views().contains(view_name(old(self).next_view() as nat)),
            final(self).named_views() == old(self).named_views().insert(
                view_name(old(self).next_view() as nat),
            ),
            final(self).minted_below(),
            view_outcome(r, old(self).next_view() as nat, select_sql@),
    {
        proof {
            use_type_invariant(&*self);
            law_next_view_name_is_fresh(&*self);
        }
        let mut table = String::from_str("ds_");
        push_decimal(&mut table, self.next_id);
        let ghost minted = self.minted@;
        let ghost n = self.next_id as nat;
        *self = DuckEngine {
            next_id: self.next_id + 1,
            max_result_rows: self.max_result_rows,
            minted: Ghost(minted.insert(n)),
        };
        proof {
            minted.lemma_set_map_insert_commute(n, |k: nat| view_name(k));
        }
        let mut sql = String::from_str("CREATE VIEW ");
        sql.append(table.as_str());
        sql.append(" AS ");
        sql.append(select_sql);
        proof {
            assert(sql@ == create_view_sql(table@, select_sql@));
            law_guard_judges_the_select(old(self).next_id as nat, select_sql@);
        }
        if !is_single_statement(sql.as_str()) {
            return Err(
                DropletError::BadArg(
                    String::from_str(
                        "SQL contains more than one statement; only a single statement is allowed",
                    ),
                ),
            );
        }
        Ok(PendingView { dataset: Dataset { table }, sql })
    }

    /// Register a local parquet file as a new view.
    pub fn register_parquet(&mut self, path: &str) -> (r: Result<PendingView, DropletError>)
        requires
            old(self).next_view() < u64::MAX,
        ensures
            final(self).next_view() == old(self).next_view() + 1,
            final(self).row_cap() == old(self).row_cap(),
            !old(self).named_views().contains(view_name(old(self).next_view() as nat)),
            final(self).named_views() == old(self).named_views().insert(
                view_name(old(self).next_view() as nat),
            ),
            final(self).minted_below(),
            view_outcome(r, old(self).next_view() as nat, parquet_select(path@)),
    {
        let mut select = String::from_str("SELECT * FROM read_parquet('");
        select.append(path);
        select.append("')");
        self.new_view(select.as_str())
    }

    /// The rows of `ds` that match `where_sql`, as a new view.
    pub fn filter_rows(&mut self, ds: &Dataset, where_sql: &str) -> (r: Result<
        PendingView,
        DropletError,
    >)
        requires
            old(self).next_view() < u64::MAX,
        ensures
            final(self).next_view() == old(self).next_view() + 1,
            final(self).row_cap() == old(self).row_cap(),
            !old(self).named_views().contains(view_name(old(self).next_view() as nat)),
            final(self).named_views() == old(self).named_views().insert(
                view_name(old(self).next_view() as nat),
            ),
            final(self).minted_below(),
            view_outcome(r, old(self).next_view() as nat, filter_select(ds.name(), where_sql@)),
    {
        let mut select = String::from_str("SELECT * FROM ");
        select.append(ds.table());
        select.append(" WHERE ");
        select.append(where_sql);
        self.new_view(select.as_str())
    }

    /// `ds` grouped by the columns `by`, with each `(alias, expression)` of `metrics` as a
    /// column, as a new view.
    #[verifier::spinoff_prover]
    pub fn group_agg(&mut self, ds: &Dataset, by: &[&str], metrics: &[(&str, &str)]) -> (r: Result<
        PendingView,
        DropletError,
    >)
        requires
            old(self).next_view() < u64::MAX,
        ensures
            final(self).next_view() == old(self).next_view() + 1,
            final(self).row_cap() == old(self).row_cap(),
            !old(self).named_views().contains(view_name(old(self).next_view() as nat)),
            final(self).named_views() == old(self).named_views().insert(
                view_name(old(self).next_view() as nat),
            ),
            final(self).minted_below(),
            view_outcome(r, old(self).next_view() as nat, group_select(ds.name(), by@, metrics@)),
    {
        let ghost cols = group_columns(by@, metrics@);
        let mut select = String::from_str("SELECT ");
        let ghost start = select@;
        crate::text::push_joined(&mut select, by, ", ");
        let ghost bys = str_views(by@);
        let mut i: usize = 0;
        proof {
            assert(cols.take(by@.len() as int) == bys);
        }
        while i < metrics.len()
            invariant
                i <= metrics@.len(),
                cols == group_columns(by@, metrics@),
                bys == str_views(by@),
                cols.len() == by@.len() + metrics@.len(),
                select@ == start + join(cols.take(by@.len() + i), ", "@),
            decreases metrics@.len() - i,
        {
            let (alias, expr) = metrics[i];
            let ghost k = by@.len() + i;
            if by.len() > 0 || i > 0 {
                select.append(", ");
            }
            select.append(expr);
            select.append(" AS ");
            select.append(alias);
            proof {
                assert(cols[k] == metric_column(metrics@[i as int]));
                assert(cols.take(k).push(cols[k]) == cols.take(k + 1));
                if k > 0 {
                    crate::text::lemma_join_push(cols.take(k), ", "@, cols[k]);
                } else {
                    assert(cols.take(1) == seq![cols[0]]);
                }
            }
            i = i + 1;
        }
        proof {
            assert(cols.take(cols.len() as int) == cols);
        }
        select.append(" FROM ");
        select.append(ds.table());
        if by.len() > 0 {
            select.append(" GROUP BY ");
            crate::text::push_joined(&mut select, by, ", ");
        }
        self.new_view(select.as_str())
    }

    /// Arbitrary local SQL over named datasets, as a new view. Each name is bound to its
    /// dataset as a common table expression, so the view does not depend on later reuse of a
    /// name.
    pub fn local_sql(&mut self, sql: &str, datasets: &[(&str, &Dataset)]) -> (r: Result<
        PendingView,
        DropletError,
    >)
        requires
            old(self).next_view() < u64::MAX,
        ensures
            final(self).next_view() == old(self).next_view() + 1,
            final(self).row_cap() == old(self).row_cap(),
            !old(self).named_views().contains(view_name(old(self).next_view() as nat)),
            final(self).named_views() == old(self).named_views().insert(
                view_name(old(self).next_view() as nat),
            ),
            final(self).minted_below(),
            view_outcome(r, old(self).next_view() as nat, named_select(sql@, datasets@)),
    {
        if datasets.len() == 0 {
            return self.new_view(sql);
        }
        let ghost parts = datasets@.map_values(|d: (&str, &Dataset)| cte_binding(d));
        let mut full = String::from_str("WITH ");
        let ghost start = full@;
        let mut i: usize = 0;
        while i < datasets.len()
            invariant
                i <= datasets@.len(),
                parts == datasets@.map_values(|d: (&str, &Dataset)| cte_binding(d)),
                full@ == start + join(parts.take(i as int), ", "@),
            decreases datasets@.len() - i,
        {
            let (alias, ds) = datasets[i];
            if i > 0 {
                full.append(", ");
            }
            full.append(alias);
            full.append(" AS (SELECT * FROM ");
            full.append(ds.table());
            full.append(")");
            proof {
                assert(parts[i as int] == cte_binding(datasets@[i as int]));
                assert(parts.take(i as int).push(parts[i as int]) == parts.take(i + 1));
                if i > 0 {
                    crate::text::lemma_join_push(parts.take(i as int), ", "@, parts[i as int]);
                } else {
                    assert(parts.take(1) == seq![parts[0]]);
                }
            }
            i = i + 1;
        }
        proof {
            assert(parts.take(datasets@.len() as int) == parts);
        }
        full.append(" ");
        full.append(sql);
        self.new_view(full.as_str())
    }

    /// The query of a capped read-out of `ds`.
    pub fn to_rows_query(&self, ds: &Dataset) -> (r: String)
        ensures
            r@ == read_out_sql(ds.name(), self.row_cap() as nat),
    {
        let mut q = String::from_str("SELECT * FROM ");
        q.append(ds.table());
        q.append(" LIMIT ");
        push_decimal(&mut q, self.max_result_rows as u64);
        q
    }

    /// The query of one value, `expr` over `ds`.
    pub fn scalar_query(&self, ds: &Dataset, expr: &str) -> (r: String)
        ensures
            r@ == scalar_sql(ds.name(), expr@),
    {
        let mut q = String::from_str("SELECT CAST(");
        q.append(expr);
        q.append(" AS BIGINT) FROM ");
        q.append(ds.table());
        q.append(" LIMIT 1");
        q
    }
}

/// How many rows to keep of each batch of a read-out so that at most `max_rows` are kept.
pub fn cap_batches(batch_rows: &[usize], max_rows: usize) -> (r: Vec<usize>)
    ensures
        r@ == capped_takes(batch_rows@, max_rows as nat),
        total(r@) == if max_rows < total(batch_rows@) { max_rows as nat } else { total(batch_rows@) },
        r@.len() <= batch_rows@.len(),
        forall|i: int| 0 <= i < r@.len() ==> #[trigger] r@[i] <= batch_rows@[i],
{
    let mut out: Vec<usize> = Vec::new();
    let mut remaining = max_rows;
    let mut i: usize = 0;
    proof {
        assert(batch_rows@.skip(0) == batch_rows@);
        assert(out@ + capped_takes(batch_rows@, max_rows as nat) == capped_takes(batch_rows@, max_rows as nat));
    }
    while i < batch_rows.len() && remaining > 0
        invariant
            i <= batch_rows@.len(),
            out@ + capped_takes(batch_rows@.skip(i as int), remaining as nat) == capped_takes(
                batch_rows@,
                max_rows as nat,
            ),
        decreases batch_rows@.len() - i,
    {
        let ghost rest = batch_rows@.skip(i as int);
        let n = batch_rows[i];
        let take = if remaining < n { remaining } else { n };
        proof {
            assert(rest[0] == n);
            assert(rest.drop_first() == batch_rows@.skip(i + 1));
        }
        out.push(take);
        remaining = remaining - take;
        i = i + 1;
        proof {
            assert(capped_takes(rest, (remaining + take) as nat) == seq![take] + capped_takes(
                rest.drop_first(),
                remaining as nat,
            ));
        }
    }
    proof {
        if i == batch_rows@.len() {
            assert(batch_rows@.skip(i as int) == Seq::<usize>::empty());
        }
        assert(out@ + Seq::<usize>::empty() == out@);
        lemma_capped_takes(batch_rows@, max_rows as nat);
    }
    out
}

} // verus!
