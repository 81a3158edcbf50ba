//! The single-statement guard for SQL that the engine wraps in a `CREATE VIEW`.
//!
//! SQL text is cut into lexical units: whitespace, `--` line comments and `/* */` block
//! comments (all trivia), single-quoted strings with `''` escapes, double-quoted identifiers
//! with `""` escapes, the separator `;`, and any other byte. A text is one statement when no
//! unit other than trivia follows a separator. Lexical forms that are not modelled (escape
//! strings, dollar quotes) are ordinary bytes, so a `;` inside them counts as a separator: the
//! guard may refuse such text, but never lets a second statement through as "quoted".
use vstd::prelude::*;
use vstd::string::StringSliceAdditionalSpecFns;

verus! {

/// What one lexical unit of SQL text is, for the purpose of counting statements.
pub enum SqlUnit {
    /// Whitespace or a comment.
    Trivia,
    /// A top-level `;`.
    Separator,
    /// Anything else: a word, a symbol, a quoted string or identifier.
    Text,
}

/// The bytes that `u8::is_ascii_whitespace` accepts: space, tab, line feed, form feed,
/// carriage return.
pub open spec fn is_sql_whitespace(c: u8) -> bool {
    c == 0x20u8 || c == 0x09u8 || c == 0x0au8 || c == 0x0cu8 || c == 0x0du8
}

/// `--` starts at `i`.
pub open spec fn opens_line_comment(b: Seq<u8>, i: int) -> bool {
    0 <= i && i + 1 < b.len() && b[i] == 0x2du8 && b[i + 1] == 0x2du8
}

/// `/*` starts at `i`.
pub open spec fn opens_block_comment(b: Seq<u8>, i: int) -> bool {
    0 <= i && i + 1 < b.len() && b[i] == 0x2fu8 && b[i + 1] == 0x2au8
}

/// `*/` starts at `i`.
pub open spec fn closes_block_comment(b: Seq<u8>, i: int) -> bool {
    0 <= i && i + 1 < b.len() && b[i] == 0x2au8 && b[i + 1] == 0x2fu8
}

/// The first line feed at or after `j`, or the end of the text.
pub open spec fn line_end(b: Seq<u8>, j: int) -> int
    decreases b.len() - j,
{
    if j >= b.len() {
        j
    } else if b[j] == 0x0au8 {
        j
    } else {
        line_end(b, j + 1)
    }
}

/// The first `*/` at or after `j`, or the end of the text.
pub open spec fn block_close(b: Seq<u8>, j: int) -> int
    decreases b.len() - j,
{
    if j >= b.len() {
        j
    } else if closes_block_comment(b, j) {
        j
    } else {
        block_close(b, j + 1)
    }
}

/// Where a quoted run that began before `j` ends: just past the first quote `q` at or after
/// `j` that is not doubled, or the end of the text.
pub open spec fn quoted_end(b: Seq<u8>, j: int, q: u8) -> int
    decreases b.len() - j,
{
    if j >= b.len() {
        j
    } else if b[j] == q {
        if j + 1 < b.len() && b[j + 1] == q {
            quoted_end(b, j + 2, q)
        } else {
            j + 1
        }
    } else {
        quoted_end(b, j + 1, q)
    }
}

/// Where the unit that starts at `i` (with `0 <= i < b.len()`) ends.
pub open spec fn unit_end(b: Seq<u8>, i: int) -> int {
    if opens_line_comment(b, i) {
        line_end(b, i + 2)
    } else if opens_block_comment(b, i) {
        let k = block_close(b, i + 2);
        if k < b.len() {
            k + 2
        } else {
            b.len() as int
        }
    } else if is_sql_whitespace(b[i]) {
        i + 1
    } else if b[i] == 0x27u8 {
        quoted_end(b, i + 1, 0x27u8)
    } else if b[i] == 0x22u8 {
        quoted_end(b, i + 1, 0x22u8)
    } else {
        i + 1
    }
}

/// The kind of the unit that starts at `i`.
pub open spec fn unit_kind(b: Seq<u8>, i: int) -> SqlUnit {
    if opens_line_comment(b, i) || opens_block_comment(b, i) || is_sql_whitespace(b[i]) {
        SqlUnit::Trivia
    } else if b[i] == 0x3bu8 {
        SqlUnit::Separator
    } else {
        SqlUnit::Text
    }
}

proof fn lemma_line_end_bounds(b: Seq<u8>, j: int)
    ensures
        j <= line_end(b, j),
        j <= b.len() ==> line_end(b, j) <= b.len(),
    decreases b.len() - j,
{
    if j < b.len() && b[j] != 0x0au8 {
        lemma_line_end_bounds(b, j + 1);
    }
}

proof fn lemma_block_close_bounds(b: Seq<u8>, j: int)
    ensures
        j <= block_close(b, j),
        j <= b.len() ==> block_close(b, j) <= b.len(),
        block_close(b, j) < b.len() ==> closes_block_comment(b, block_close(b, j)),
    decreases b.len() - j,
{
    if j < b.len() && !closes_block_comment(b, j) {
        lemma_block_close_bounds(b, j + 1);
    }
}

proof fn lemma_quoted_end_bounds(b: Seq<u8>, j: int, q: u8)
    ensures
        j <= quoted_end(b, j, q),
        j <= b.len() ==> quoted_end(b, j, q) <= b.len(),
    decreases b.len() - j,
{
    if j < b.len() {
        if b[j] == q {
            if j + 1 < b.len() && b[j + 1] == q {
                lemma_quoted_end_bounds(b, j + 2, q);
            }
        } else {
            lemma_quoted_end_bounds(b, j + 1, q);
        }
    }
}

/// Every unit is non-empty and stays within the text.
pub proof fn lemma_unit_end_bounds(b: Seq<u8>, i: int)
    requires
        0 <= i < b.len(),
    ensures
        i < unit_end(b, i) <= b.len(),
{
    lemma_line_end_bounds(b, i + 2);
    lemma_block_close_bounds(b, i + 2);
    lemma_quoted_end_bounds(b, i + 1, 0x27u8);
    lemma_quoted_end_bounds(b, i + 1, 0x22u8);
}

/// The kinds of the units from position `i` to the end of the text.
pub open spec fn units_from(b: Seq<u8>, i: int) -> Seq<SqlUnit>
    decreases b.len() - i,
{
    if i < 0 || i >= b.len() {
        Seq::empty()
    } else {
        proof {
            lemma_unit_end_bounds(b, i);
        }
        seq![unit_kind(b, i)] + units_from(b, unit_end(b, i))
    }
}

/// The kinds of all units of the text, in order.
pub open spec fn sql_units(b: Seq<u8>) -> Seq<SqlUnit> {
    units_from(b, 0)
}

/// No unit other than trivia comes after a separator.
pub open spec fn nothing_after_separator(u: Seq<SqlUnit>) -> bool {
    forall|i: int, j: int|
        #![trigger u[i], u[j]]
        0 <= i < j < u.len() && u[i] == SqlUnit::Separator ==> u[j] == SqlUnit::Trivia
}

/// The text holds at most one statement: a single trailing separator, possibly followed by
/// whitespace and comments, is allowed.
pub open spec fn single_statement(b: Seq<u8>) -> bool {
    nothing_after_separator(sql_units(b))
}

proof fn lemma_no_separator_units(b: Seq<u8>, i: int)
    requires
        forall|k: int| 0 <= k < b.len() ==> b[k] != 0x3bu8,
    ensures
        forall|k: int|
            0 <= k < units_from(b, i).len() ==> #[trigger] units_from(b, i)[k]
                != SqlUnit::Separator,
    decreases b.len() - i,
{
    if 0 <= i < b.len() {
        lemma_unit_end_bounds(b, i);
        let e = unit_end(b, i);
        lemma_no_separator_units(b, e);
        let u = units_from(b, i);
        assert(u == seq![unit_kind(b, i)] + units_from(b, e));
        assert forall|k: int| 0 <= k < u.len() implies #[trigger] u[k] != SqlUnit::Separator by {
            if k > 0 {
                assert(u[k] == units_from(b, e)[k - 1]);
            }
        }
    }
}

/// Text that holds no `;` byte at all is always one statement.
pub proof fn law_text_without_semicolon_is_single(b: Seq<u8>)
    requires
        forall|k: int| 0 <= k < b.len() ==> b[k] != 0x3bu8,
    ensures
        single_statement(b),
{
    lemma_no_separator_units(b, 0);
}

/// A byte that neither opens a comment or a quoted run nor separates statements.
pub open spec fn plain_byte(c: u8) -> bool {
    c != 0x2du8 && c != 0x2fu8 && c != 0x27u8 && c != 0x22u8 && c != 0x3bu8
}

proof fn lemma_line_end_shift(p: Seq<u8>, t: Seq<u8>, j: int)
    requires
        0 <= j,
    ensures
        line_end(p + t, p.len() + j) == p.len() + line_end(t, j),
    decreases t.len() - j,
{
    if j < t.len() && t[j] != 0x0au8 {
        lemma_line_end_shift(p, t, j + 1);
    }
}

proof fn lemma_block_close_shift(p: Seq<u8>, t: Seq<u8>, j: int)
    requires
        0 <= j,
    ensures
        block_close(p + t, p.len() + j) == p.len() + block_close(t, j),
    decreases t.len() - j,
{
    if j < t.len() && !closes_block_comment(t, j) {
        lemma_block_close_shift(p, t, j + 1);
    }
}

proof fn lemma_quoted_end_shift(p: Seq<u8>, t: Seq<u8>, j: int, q: u8)
    requires
        0 <= j,
    ensures
        quoted_end(p + t, p.len() + j, q) == p.len() + quoted_end(t, j, q),
    decreases t.len() - j,
{
    if j < t.len() {
        if t[j] == q {
            if j + 1 < t.len() && t[j + 1] == q {
                lemma_quoted_end_shift(p, t, j + 2, q);
            }
        } else {
            lemma_quoted_end_shift(p, t, j + 1, q);
        }
    }
}

/// The units of a text after a prefix are the units of the text alone: lexing looks ahead,
/// never back.
proof fn lemma_units_shift(p: Seq<u8>, t: Seq<u8>, j: int)
    requires
        0 <= j,
    ensures
        units_from(p + t, p.len() + j) == units_from(t, j),
    decreases t.len() - j,
{
    let b = p + t;
    if j < t.len() {
        lemma_line_end_shift(p, t, j + 2);
        lemma_block_close_shift(p, t, j + 2);
        lemma_quoted_end_shift(p, t, j + 1, 0x27u8);
        lemma_quoted_end_shift(p, t, j + 1, 0x22u8);
        assert(b[p.len() + j] == t[j]);
        assert(j + 1 < t.len() ==> b[p.len() + j + 1] == t[j + 1]);
        assert(unit_kind(b, p.len() + j) == unit_kind(t, j));
        assert(unit_end(b, p.len() + j) == p.len() + unit_end(t, j));
        lemma_unit_end_bounds(t, j);
        lemma_units_shift(p, t, unit_end(t, j));
    }
}

/// The kinds of the units of a run of plain bytes from `i`: one unit per byte.
pub open spec fn plain_units(p: Seq<u8>, i: int) -> Seq<SqlUnit>
    decreases p.len() - i,
{
    if i < 0 || i >= p.len() {
        Seq::empty()
    } else {
        seq![if is_sql_whitespace(p[i]) { SqlUnit::Trivia } else { SqlUnit::Text }] + plain_units(p, i + 1)
    }
}

proof fn lemma_plain_prefix(p: Seq<u8>, t: Seq<u8>, i: int)
    requires
        0 <= i <= p.len(),
        forall|k: int| 0 <= k < p.len() ==> plain_byte(#[trigger] p[k]),
    ensures
        units_from(p + t, i) == plain_units(p, i) + units_from(t, 0),
        forall|k: int| 0 <= k < plain_units(p, i).len() ==> #[trigger] plain_units(p, i)[k] != SqlUnit::Separator,
    decreases p.len() - i,
{
    let b = p + t;
    if i == p.len() {
        lemma_units_shift(p, t, 0);
        assert(plain_units(p, i) == Seq::<SqlUnit>::empty());
        assert(plain_units(p, i) + units_from(t, 0) == units_from(t, 0));
    } else {
        lemma_plain_prefix(p, t, i + 1);
        assert(b[i] == p[i]);
        assert(plain_byte(p[i]));
        assert(unit_end(b, i) == i + 1);
        let k0 = if is_sql_whitespace(p[i]) { SqlUnit::Trivia } else { SqlUnit::Text };
        assert(unit_kind(b, i) == k0);
        assert(units_from(b, i) == seq![k0] + units_from(b, i + 1));
        assert(seq![k0] + (plain_units(p, i + 1) + units_from(t, 0)) == (seq![k0] + plain_units(p, i + 1)) + units_from(t, 0));
        let q = plain_units(p, i);
        assert(q == seq![k0] + plain_units(p, i + 1));
        assert forall|k: int| 0 <= k < q.len() implies #[trigger] q[k] != SqlUnit::Separator by {
            if k > 0 {
                assert(q[k] == plain_units(p, i + 1)[k - 1]);
            }
        }
    }
}

proof fn lemma_no_separator_prefix(q: Seq<SqlUnit>, u: Seq<SqlUnit>)
    requires
        forall|k: int| 0 <= k < q.len() ==> #[trigger] q[k] != SqlUnit::Separator,
    ensures
        nothing_after_separator(q + u) == nothing_after_separator(u),
{
    let w = q + u;
    if nothing_after_separator(u) {
        assert forall|i: int, j: int|
            #![trigger w[i], w[j]]
            0 <= i < j < w.len() && w[i] == SqlUnit::Separator implies w[j] == SqlUnit::Trivia by {
            assert(i >= q.len());
            assert(w[i] == u[i - q.len()]);
            assert(w[j] == u[j - q.len()]);
        }
    } else {
        let (i, j) = choose|i: int, j: int|
            0 <= i < j < u.len() && u[i] == SqlUnit::Separator && u[j] != SqlUnit::Trivia;
        assert(w[q.len() + i] == u[i]);
        assert(w[q.len() + j] == u[j]);
    }
}

/// Putting a run of plain bytes (no comment openers, quotes or `;`) before a text does not
/// change whether it is one statement.
pub proof fn law_plain_prefix_keeps_verdict(p: Seq<u8>, t: Seq<u8>)
    requires
        forall|k: int| 0 <= k < p.len() ==> plain_byte(#[trigger] p[k]),
    ensures
        single_statement(p + t) == single_statement(t),
{
    lemma_plain_prefix(p, t, 0);
    lemma_no_separator_prefix(plain_units(p, 0), units_from(t, 0));
}

/// One of the bytes `u8::is_ascii_whitespace` accepts: tab, line feed, form feed, carriage
/// return, space.
pub open spec fn ascii_ws(c: u8) -> bool {
    c == 0x09u8 || c == 0x0au8 || c == 0x0cu8 || c == 0x0du8 || c == 0x20u8
}

proof fn lemma_ws_tail_trivia(s: Seq<u8>, w: Seq<u8>, j: int)
    requires
        s.len() <= j <= s.len() + w.len(),
        forall|k: int| 0 <= k < w.len() ==> ascii_ws(#[trigger] w[k]),
    ensures
        forall|k: int| 0 <= k < units_from(s + w, j).len() ==> #[trigger] units_from(s + w, j)[k] == SqlUnit::Trivia,
    decreases s.len() + w.len() - j,
{
    let b = s + w;
    if j < b.len() {
        assert(b[j] == w[j - s.len()]);
        assert(ascii_ws(w[j - s.len()]));
        assert(unit_end(b, j) == j + 1);
        lemma_ws_tail_trivia(s, w, j + 1);
        let u = units_from(b, j);
        assert(u == seq![unit_kind(b, j)] + units_from(b, j + 1));
        assert forall|k: int| 0 <= k < u.len() implies #[trigger] u[k] == SqlUnit::Trivia by {
            if k > 0 {
                assert(u[k] == units_from(b, j + 1)[k - 1]);
            }
        }
    }
}

proof fn lemma_line_end_ws(s: Seq<u8>, w: Seq<u8>, j: int)
    requires
        0 <= j <= s.len(),
    ensures
        line_end(s, j) < s.len() ==> line_end(s + w, j) == line_end(s, j),
        line_end(s, j) >= s.len() ==> s.len() <= line_end(s + w, j) <= s.len() + w.len(),
    decreases s.len() - j,
{
    let b = s + w;
    lemma_line_end_bounds(b, j);
    lemma_line_end_bounds(s, j);
    if j < s.len() {
        assert(b[j] == s[j]);
        if s[j] != 0x0au8 {
            lemma_line_end_ws(s, w, j + 1);
        }
    }
}

proof fn lemma_block_close_ws(s: Seq<u8>, w: Seq<u8>, j: int)
    requires
        0 <= j <= s.len(),
        forall|k: int| 0 <= k < w.len() ==> ascii_ws(#[trigger] w[k]),
    ensures
        block_close(s, j) < s.len() ==> block_close(s + w, j) == block_close(s, j),
        block_close(s, j) >= s.len() ==> s.len() <= block_close(s + w, j),
    decreases s.len() - j,
{
    let b = s + w;
    lemma_block_close_bounds(b, j);
    lemma_block_close_bounds(s, j);
    if j < s.len() {
        assert(b[j] == s[j]);
        if j + 1 < s.len() {
            assert(b[j + 1] == s[j + 1]);
        } else if j + 1 < b.len() {
            assert(b[j + 1] == w[0]);
            assert(ascii_ws(w[0]));
        }
        assert(closes_block_comment(b, j) == closes_block_comment(s, j));
        if !closes_block_comment(s, j) {
            lemma_block_close_ws(s, w, j + 1);
        }
    }
}

proof fn lemma_quoted_end_ws(s: Seq<u8>, w: Seq<u8>, j: int, q: u8)
    requires
        0 <= j <= s.len(),
        q == 0x27u8 || q == 0x22u8,
        forall|k: int| 0 <= k < w.len() ==> ascii_ws(#[trigger] w[k]),
    ensures
        quoted_end(s, j, q) < s.len() ==> quoted_end(s + w, j, q) == quoted_end(s, j, q),
        quoted_end(s, j, q) >= s.len() ==> s.len() <= quoted_end(s + w, j, q) <= s.len() + w.len(),
    decreases s.len() - j,
{
    let b = s + w;
    lemma_quoted_end_bounds(b, j, q);
    lemma_quoted_end_bounds(s, j, q);
    if j < s.len() {
        assert(b[j] == s[j]);
        if s[j] == q {
            if j + 1 < s.len() {
                assert(b[j + 1] == s[j + 1]);
                if s[j + 1] == q {
                    lemma_quoted_end_ws(s, w, j + 2, q);
                }
            } else if j + 1 < b.len() {
                assert(b[j + 1] == w[0]);
                assert(ascii_ws(w[0]));
            }
        } else {
            lemma_quoted_end_ws(s, w, j + 1, q);
        }
    }
}

proof fn lemma_unit_ws(s: Seq<u8>, w: Seq<u8>, i: int)
    requires
        0 <= i < s.len(),
        forall|k: int| 0 <= k < w.len() ==> ascii_ws(#[trigger] w[k]),
    ensures
        unit_kind(s + w, i) == unit_kind(s, i),
        unit_end(s, i) < s.len() ==> unit_end(s + w, i) == unit_end(s, i),
        unit_end(s, i) >= s.len() ==> s.len() <= unit_end(s + w, i) <= s.len() + w.len(),
{
    let b = s + w;
    assert(b[i] == s[i]);
    if i + 1 < s.len() {
        assert(b[i + 1] == s[i + 1]);
    } else if i + 1 < b.len() {
        assert(b[i + 1] == w[0]);
        assert(ascii_ws(w[0]));
    }
    assert(opens_line_comment(b, i) == opens_line_comment(s, i));
    assert(opens_block_comment(b, i) == opens_block_comment(s, i));
    lemma_unit_end_bounds(s, i);
    lemma_unit_end_bounds(b, i);
    if opens_line_comment(s, i) {
        lemma_line_end_ws(s, w, i + 2);
    } else if opens_block_comment(s, i) {
        lemma_block_close_ws(s, w, i + 2);
        lemma_block_close_bounds(s, i + 2);
        lemma_block_close_bounds(b, i + 2);
    } else if s[i] == 0x27u8 {
        lemma_quoted_end_ws(s, w, i + 1, 0x27u8);
    } else if s[i] == 0x22u8 {
        lemma_quoted_end_ws(s, w, i + 1, 0x22u8);
    }
}

proof fn lemma_units_ws(s: Seq<u8>, w: Seq<u8>, i: int)
    requires
        0 <= i <= s.len(),
        forall|k: int| 0 <= k < w.len() ==> ascii_ws(#[trigger] w[k]),
    ensures
        units_from(s, i).len() <= units_from(s + w, i).len(),
        forall|k: int| 0 <= k < units_from(s, i).len() ==> #[trigger] units_from(s + w, i)[k] == units_from(s, i)[k],
        forall|k: int|
            units_from(s, i).len() <= k < units_from(s + w, i).len() ==> #[trigger] units_from(s + w, i)[k]
                == SqlUnit::Trivia,
    decreases s.len() - i,
{
    let b = s + w;
    if i == s.len() {
        lemma_ws_tail_trivia(s, w, i);
    } else {
        lemma_unit_ws(s, w, i);
        lemma_unit_end_bounds(s, i);
        lemma_unit_end_bounds(b, i);
        let es = unit_end(s, i);
        let eb = unit_end(b, i);
        let us = units_from(s, i);
        let ub = units_from(b, i);
        assert(us == seq![unit_kind(s, i)] + units_from(s, es));
        assert(ub == seq![unit_kind(b, i)] + units_from(b, eb));
        if es < s.len() {
            lemma_units_ws(s, w, es);
        } else {
            assert(units_from(s, es) == Seq::<SqlUnit>::empty());
            lemma_ws_tail_trivia(s, w, eb);
        }
        assert forall|k: int| 0 <= k < us.len() implies #[trigger] ub[k] == us[k] by {
            if k > 0 {
                assert(us[k] == units_from(s, es)[k - 1]);
                assert(ub[k] == units_from(b, eb)[k - 1]);
            }
        }
        assert forall|k: int| us.len() <= k < ub.len() implies #[trigger] ub[k] == SqlUnit::Trivia by {
            assert(k > 0);
            assert(ub[k] == units_from(b, eb)[k - 1]);
        }
    }
}

/// Whitespace at the end of a text does not change whether it is one statement: a text
/// followed by any run of tabs, line feeds, form feeds, carriage returns and spaces is one
/// statement exactly when the text alone is; `SELECT 1;` with a CRLF after it is one.
pub proof fn law_trailing_whitespace_keeps_verdict(s: Seq<u8>, w: Seq<u8>)
    requires
        forall|k: int| 0 <= k < w.len() ==> ascii_ws(#[trigger] w[k]),
    ensures
        single_statement(s + w) == single_statement(s),
{
    lemma_units_ws(s, w, 0);
    let us = sql_units(s);
    let ub = sql_units(s + w);
    if nothing_after_separator(us) {
        assert forall|i: int, j: int|
            #![trigger ub[i], ub[j]]
            0 <= i < j < ub.len() && ub[i] == SqlUnit::Separator implies ub[j] == SqlUnit::Trivia by {
            if j < us.len() {
                assert(ub[i] == us[i]);
                assert(ub[j] == us[j]);
                assert(us[i] == SqlUnit::Separator);
            }
        }
    } else {
        let (i, j) = choose|i: int, j: int|
            0 <= i < j < us.len() && us[i] == SqlUnit::Separator && us[j] != SqlUnit::Trivia;
        assert(ub[i] == us[i]);
        assert(ub[j] == us[j]);
    }
}

/// A second statement is refused: plain text, a `;`, then anything that starts with a byte
/// other than whitespace, a comment opener, a quote or `;` is never one statement.
pub proof fn law_second_statement_is_refused(p: Seq<u8>, q: Seq<u8>)
    requires
        forall|k: int| 0 <= k < p.len() ==> plain_byte(#[trigger] p[k]),
        q.len() > 0,
        plain_byte(q[0]),
        !(q[0] == 0x09u8 || q[0] == 0x0au8 || q[0] == 0x0cu8 || q[0] == 0x0du8 || q[0] == 0x20u8),
    ensures
        !single_statement(p + (seq![0x3bu8] + q)),
{
    let sep = seq![0x3bu8];
    let t = sep + q;
    law_plain_prefix_keeps_verdict(p, t);
    lemma_unit_end_bounds(t, 0);
    assert(t[0] == 0x3bu8);
    assert(unit_kind(t, 0) == SqlUnit::Separator);
    assert(unit_end(t, 0) == 1);
    lemma_units_shift(sep, q, 0);
    assert(units_from(t, 1) == units_from(q, 0));
    lemma_unit_end_bounds(q, 0);
    assert(unit_kind(q, 0) == SqlUnit::Text);
    let u = sql_units(t);
    assert(u == seq![SqlUnit::Separator] + units_from(q, 0));
    assert(units_from(q, 0)[0] == SqlUnit::Text);
    assert(u[0] == SqlUnit::Separator);
    assert(u[1] == SqlUnit::Text);
}

/// A lone trailing `;` is allowed: plain text followed by one `;` and any whitespace is one
/// statement.
pub proof fn law_trailing_separator_is_allowed(p: Seq<u8>, w: Seq<u8>)
    requires
        forall|k: int| 0 <= k < p.len() ==> plain_byte(#[trigger] p[k]),
        forall|k: int| 0 <= k < w.len() ==> ascii_ws(#[trigger] w[k]),
    ensures
        single_statement(p + seq![0x3bu8] + w),
{
    let sep = seq![0x3bu8];
    law_trailing_whitespace_keeps_verdict(p + sep, w);
    law_plain_prefix_keeps_verdict(p, sep);
    lemma_unit_end_bounds(sep, 0);
    assert(unit_end(sep, 0) == 1);
    assert(units_from(sep, 1) == Seq::<SqlUnit>::empty());
    assert(sql_units(sep) == seq![SqlUnit::Separator]);
}

/// `c` is whitespace in the sense of `u8::is_ascii_whitespace`.
fn is_whitespace_byte(c: u8) -> (r: bool)
    ensures
        r == is_sql_whitespace(c),
{
    c == 0x20u8 || c == 0x09u8 || c == 0x0au8 || c == 0x0cu8 || c == 0x0du8
}

fn scan_line_end(b: &[u8], j0: usize) -> (k: usize)
    requires
        j0 <= b@.len(),
    ensures
        k == line_end(b@, j0 as int),
{
    let mut j = j0;
    while j < b.len() && b[j] != 0x0au8
        invariant
            j0 <= j <= b@.len(),
            line_end(b@, j as int) == line_end(b@, j0 as int),
        decreases b@.len() - j,
    {
        j = j + 1;
    }
    j
}

fn scan_block_close(b: &[u8], j0: usize) -> (k: usize)
    requires
        j0 <= b@.len(),
    ensures
        k == block_close(b@, j0 as int),
{
    let mut j = j0;
    while j < b.len() && !(j + 1 < b.len() && b[j] == 0x2au8 && b[j + 1] == 0x2fu8)
        invariant
            j0 <= j <= b@.len(),
            block_close(b@, j as int) == block_close(b@, j0 as int),
        decreases b@.len() - j,
    {
        j = j + 1;
    }
    j
}

fn scan_quoted_end(b: &[u8], j0: usize, q: u8) -> (k: usize)
    requires
        j0 <= b@.len(),
    ensures
        k == quoted_end(b@, j0 as int, q),
{
    let mut j = j0;
    while j < b.len()
        invariant
            j0 <= j <= b@.len(),
            quoted_end(b@, j as int, q) == quoted_end(b@, j0 as int, q),
        decreases b@.len() - j,
    {
        if b[j] == q {
            if j + 1 < b.len() && b[j + 1] == q {
                j = j + 2;
            } else {
                return j + 1;
            }
        } else {
            j = j + 1;
        }
    }
    j
}

/// True iff `sql` is at most one statement, with a lone trailing `;` allowed.
pub fn is_single_statement(sql: &str) -> (r: bool)
    ensures
        r == single_statement(sql.spec_bytes()),
{
    let b = sql.as_bytes();
    let ghost bs = b@;
    let mut i: usize = 0;
    let mut terminated = false;
    let ghost mut seen: Seq<SqlUnit> = Seq::empty();
    while i < b.len()
        invariant
            bs == b@,
            bs == sql.spec_bytes(),
            i <= b@.len(),
            sql_units(bs) == seen + units_from(bs, i as int),
            nothing_after_separator(seen),
            terminated <==> seen.contains(SqlUnit::Separator),
        decreases b@.len() - i,
    {
        let ghost k = unit_kind(bs, i as int);
        let ghost e = unit_end(bs, i as int);
        proof {
            lemma_unit_end_bounds(bs, i as int);
            assert(units_from(bs, i as int) == seq![k] + units_from(bs, e));
        }
        let c = b[i];
        let next: usize;
        if c == 0x2du8 && i + 1 < b.len() && b[i + 1] == 0x2du8 {
            next = scan_line_end(b, i + 2);
        } else if c == 0x2fu8 && i + 1 < b.len() && b[i + 1] == 0x2au8 {
            let close = scan_block_close(b, i + 2);
            if close < b.len() {
                proof {
                    lemma_block_close_bounds(bs, i + 2);
                }
                next = close + 2;
            } else {
                next = b.len();
            }
        } else if is_whitespace_byte(c) {
            next = i + 1;
        } else {
            if terminated {
                proof {
                    let s = choose|s: int| 0 <= s < seen.len() && seen[s] == SqlUnit::Separator;
                    let all = seen + units_from(bs, i as int);
                    assert(all[s] == SqlUnit::Separator);
                    assert(all[seen.len() as int] == k);
                    assert(k != SqlUnit::Trivia);
                    assert(sql_units(bs)[s] == SqlUnit::Separator);
                    assert(sql_units(bs)[seen.len() as int] != SqlUnit::Trivia);
                    assert(!nothing_after_separator(sql_units(bs)));
                }
                return false;
            }
            if c == 0x27u8 {
                next = scan_quoted_end(b, i + 1, 0x27u8);
            } else if c == 0x22u8 {
                next = scan_quoted_end(b, i + 1, 0x22u8);
            } else {
                if c == 0x3bu8 {
                    terminated = true;
                }
                next = i + 1;
            }
        }
        proof {
            assert(next == e);
            let s2 = seen.push(k);
            assert(s2 + units_from(bs, e) == seen + (seq![k] + units_from(bs, e)));
            if terminated {
                if k == SqlUnit::Separator {
                    assert(s2[seen.len() as int] == SqlUnit::Separator);
                } else {
                    let s = choose|s: int| 0 <= s < seen.len() && seen[s] == SqlUnit::Separator;
                    assert(s2[s] == SqlUnit::Separator);
                }
            } else {
                assert forall|x: int| 0 <= x < s2.len() implies s2[x] != SqlUnit::Separator by {
                    if x < seen.len() {
                        assert(seen[x] != SqlUnit::Separator);
                    }
                }
            }
            seen = s2;
        }
        i = next;
    }
    proof {
        assert(units_from(bs, i as int) == Seq::<SqlUnit>::empty());
        assert(sql_units(bs) == seen);
    }
    true
}

} // verus!
